//! What holds of settings as documents.

use vstd::prelude::*;

use crate::config::{
    config_of, config_tree, entry_profiles, faithful_config, field_entries, filled_texts, kept,
    listed_profiles, lookup, profile_of, profile_tree, stored_config, text_at, text_list, value_at,
    Config, ConfigView, Profile, ProfileView,
};
use crate::yaml::{
    faithful_key, faithful_text, quoted_len, value_trees, yaml_load, YamlTree, YamlValue,
};

verus! {

proof fn lemma_lookup_absent(fields: Seq<(Seq<char>, Seq<char>)>, key: Seq<char>)
    requires
        forall|i: int| 0 <= i < fields.len() ==> (#[trigger] fields[i]).0 != key,
    ensures
        lookup(field_entries(fields), key) == YamlTree::Other,
    decreases fields.len(),
{
    if fields.len() > 0 {
        let rest = fields.drop_first();
        assert forall|i: int| 0 <= i < rest.len() implies (#[trigger] rest[i]).0 != key by {
            assert(rest[i] == fields[i + 1]);
        }
        lemma_lookup_absent(rest, key);
        let entries = field_entries(fields);
        if fields.first().1.len() > 0 {
            assert(entries.drop_first() =~= field_entries(rest));
        } else {
            assert(entries =~= field_entries(rest));
        }
    }
}

proof fn lemma_text_at_field(fields: Seq<(Seq<char>, Seq<char>)>, at: int)
    requires
        0 <= at < fields.len(),
        forall|i: int, j: int|
            0 <= i < j < fields.len() ==> (#[trigger] fields[i]).0 != (#[trigger] fields[j]).0,
    ensures
        text_at(field_entries(fields), fields[at].0) == fields[at].1,
    decreases fields.len(),
{
    let rest = fields.drop_first();
    let entries = field_entries(fields);
    let key = fields[at].0;
    assert(forall|i: int| 0 <= i < rest.len() ==> #[trigger] rest[i] == fields[i + 1]);
    if fields.first().1.len() > 0 {
        assert(entries.drop_first() =~= field_entries(rest));
    } else {
        assert(entries =~= field_entries(rest));
    }
    if at == 0 {
        assert forall|i: int| 0 <= i < rest.len() implies (#[trigger] rest[i]).0 != key by {
            assert(fields[0].0 != fields[i + 1].0);
        }
        lemma_lookup_absent(rest, key);
        if fields[0].1.len() == 0 {
            assert(fields[0].1 =~= Seq::empty());
        }
    } else {
        assert(fields[0].0 != fields[at].0);
        lemma_text_at_field(rest, at - 1);
        assert(rest[at - 1] == fields[at]);
    }
}

proof fn lemma_field_keys(profile: ProfileView)
    ensures
        forall|i: int, j: int|
            0 <= i < j < profile.fields().len() ==> (#[trigger] profile.fields()[i]).0 != (
            #[trigger] profile.fields()[j]).0,
        forall|i: int|
            0 <= i < profile.fields().len() ==> faithful_key((#[trigger] profile.fields()[i]).0),
{
    reveal_strlit("host");
    reveal_strlit("version");
    reveal_strlit("community");
    reveal_strlit("security_engine_id");
    reveal_strlit("context_engine_id");
    reveal_strlit("security_level");
    reveal_strlit("auth-proto");
    reveal_strlit("auth-key");
    reveal_strlit("priv-proto");
    reveal_strlit("priv-key");
    let fields = profile.fields();
    assert forall|i: int, j: int| 0 <= i < j < fields.len() implies (#[trigger] fields[i]).0 != (
    #[trigger] fields[j]).0 by {
        assert(fields[i].0.len() != fields[j].0.len() || fields[i].0[0] != fields[j].0[0]);
    }
    assert forall|i: int| 0 <= i < fields.len() implies faithful_key((#[trigger] fields[i]).0) by {
        lemma_short_key(fields[i].0);
    }
}

/// A short key that starts neither with `0` nor with `+` is read back as it was written.
proof fn lemma_short_key(s: Seq<char>)
    requires
        0 < s.len() <= 100,
        s[0] != '0',
        s[0] != '+',
    ensures
        faithful_key(s),
{
    lemma_quoted_len(s);
}

proof fn lemma_quoted_len(s: Seq<char>)
    ensures
        quoted_len(s) <= 2 + 6 * s.len(),
    decreases s.len(),
{
    if s.len() > 0 {
        lemma_quoted_len(s.drop_last());
    }
}

proof fn lemma_profile_kept(profile: ProfileView)
    ensures
        profile_of(profile.name, field_entries(profile.fields())) == profile,
{
    lemma_field_keys(profile);
    let fields = profile.fields();
    lemma_text_at_field(fields, 0);
    lemma_text_at_field(fields, 1);
    lemma_text_at_field(fields, 2);
    lemma_text_at_field(fields, 3);
    lemma_text_at_field(fields, 4);
    lemma_text_at_field(fields, 5);
    lemma_text_at_field(fields, 6);
    lemma_text_at_field(fields, 7);
    lemma_text_at_field(fields, 8);
    lemma_text_at_field(fields, 9);
}

proof fn lemma_mibs_kept(mibs: Seq<Seq<char>>)
    ensures
        filled_texts(text_list(mibs)->Arr_0) == mibs.filter(|mib: Seq<char>| mib.len() > 0),
    decreases mibs.len(),
{
    reveal(Seq::filter);
    if mibs.len() > 0 {
        lemma_mibs_kept(mibs.drop_last());
        assert(text_list(mibs)->Arr_0.drop_last() =~= text_list(mibs.drop_last())->Arr_0);
    }
}

proof fn lemma_profiles_kept(profiles: Seq<ProfileView>)
    ensures
        listed_profiles(profiles.map_values(|p: ProfileView| profile_tree(p))) == profiles,
    decreases profiles.len(),
{
    let items = profiles.map_values(|p: ProfileView| profile_tree(p));
    if profiles.len() > 0 {
        let before = profiles.drop_last();
        lemma_profiles_kept(before);
        assert(items.drop_last() =~= before.map_values(|p: ProfileView| profile_tree(p)));
        let p = profiles.last();
        lemma_profile_kept(p);
        let entries = profile_tree(p)->Hash_0;
        assert(entry_profiles(entries) =~= seq![p]) by {
            assert(entries.drop_last() =~= Seq::empty());
            assert(entry_profiles(entries.drop_last()) =~= Seq::empty());
        }
        assert(before + seq![p] =~= profiles);
    } else {
        assert(items =~= Seq::empty());
    }
}

/// Writing settings as a document and reading that document gives the settings back, but for
/// empty MIB paths.
pub proof fn law_document_round_trip(config: ConfigView)
    ensures
        config_of(config_tree(config)) == kept(config),
{
    reveal_strlit("mibs");
    reveal_strlit("active_profile");
    reveal_strlit("profiles");
    assert("mibs"@.len() == 4);
    assert("active_profile"@.len() == 14);
    assert("profiles"@.len() == 8);
    let entries = config_tree(config)->Hash_0;
    let rest = entries.drop_first();
    lemma_mibs_kept(config.mibs);
    lemma_profiles_kept(config.profiles);
    reveal_with_fuel(lookup, 4);
    assert(lookup(entries, "mibs"@) == text_list(config.mibs));
    if config.active_profile.len() > 0 {
        assert(rest[0].0 == YamlTree::Str("active_profile"@));
    } else {
        assert(config.active_profile =~= Seq::empty());
    }
    if config.profiles.len() == 0 {
        assert(config.profiles =~= Seq::empty());
    }
    assert(config_of(config_tree(config)).profiles =~= config.profiles);
}

proof fn lemma_filled_texts(items: Seq<YamlTree>)
    ensures
        filled_texts(items).filter(|mib: Seq<char>| mib.len() > 0) == filled_texts(items),
    decreases items.len(),
{
    reveal(Seq::filter);
    if items.len() > 0 {
        lemma_filled_texts(items.drop_last());
        let before = filled_texts(items.drop_last());
        match items.last() {
            YamlTree::Str(s) if s.len() > 0 => {
                assert(before.push(s).drop_last() =~= before);
            },
            _ => {},
        }
    }
}

/// Settings that were loaded are kept whole: storing them leaves nothing out.
pub proof fn law_loaded_settings_are_kept(raw: Option<Seq<char>>)
    ensures
        kept(stored_config(raw)) == stored_config(raw),
{
    reveal(Seq::filter);
    let config = stored_config(raw);
    if let Some(text) = raw {
        if let Some(docs) = yaml_load(text) {
            if docs.len() > 0 {
                if let YamlTree::Arr(items) = value_at(docs[0], "mibs"@) {
                    lemma_filled_texts(items);
                }
            }
        }
    }
    assert(kept(config).mibs =~= config.mibs);
}

proof fn lemma_field_entries(fields: Seq<(Seq<char>, Seq<char>)>)
    requires
        forall|i: int, j: int|
            0 <= i < j < fields.len() ==> (#[trigger] fields[i]).0 != (#[trigger] fields[j]).0,
    ensures
        YamlTree::keys(field_entries(fields)).no_duplicates(),
        forall|i: int|
            0 <= i < field_entries(fields).len() ==> {
                let entry = #[trigger] field_entries(fields)[i];
                &&& entry.0 is Str
                &&& entry.1 is Str
                &&& fields.contains((entry.0->Str_0, entry.1->Str_0))
            },
    decreases fields.len(),
{
    let entries = field_entries(fields);
    if fields.len() > 0 {
        let rest = fields.drop_first();
        assert(forall|i: int| 0 <= i < rest.len() ==> #[trigger] rest[i] == fields[i + 1]);
        lemma_field_entries(rest);
        let tail = field_entries(rest);
        let shift: int = if fields.first().1.len() > 0 {
            1
        } else {
            0
        };
        assert(forall|i: int| shift <= i < entries.len() ==> #[trigger] entries[i] == tail[i - shift]);
        assert forall|i: int| 0 <= i < entries.len() implies {
            let entry = #[trigger] entries[i];
            &&& entry.0 is Str
            &&& entry.1 is Str
            &&& fields.contains((entry.0->Str_0, entry.1->Str_0))
        } by {
            if i >= shift {
                let entry = tail[i - shift];
                let pair = (entry.0->Str_0, entry.1->Str_0);
                assert(rest.contains(pair));
                let j = choose|j: int| 0 <= j < rest.len() && rest[j] == pair;
                assert(fields[j + 1] == pair);
            } else {
                assert(fields[0] == (entries[0].0->Str_0, entries[0].1->Str_0));
            }
        }
        let keys = YamlTree::keys(entries);
        let tail_keys = YamlTree::keys(tail);
        assert forall|i: int, j: int| 0 <= i < keys.len() && 0 <= j < keys.len() && i != j implies
            keys[i] != keys[j] by {
            if i >= shift && j >= shift {
                assert(tail_keys[i - shift] != tail_keys[j - shift]);
            } else {
                let other = if i >= shift {
                    i
                } else {
                    j
                };
                let entry = tail[other - shift];
                let pair = (entry.0->Str_0, entry.1->Str_0);
                assert(rest.contains(pair));
                let k = choose|k: int| 0 <= k < rest.len() && rest[k] == pair;
                assert(fields[0].0 != fields[k + 1].0);
            }
        }
    }
}

/// Every document that settings become can be written.
pub proof fn lemma_config_writable(config: ConfigView)
    ensures
        config_tree(config).writable(),
{
    lemma_root_keys(config);
    reveal_with_fuel(YamlTree::writable, 7);
    assert forall|p: ProfileView| (#[trigger] profile_tree(p)).writable() by {
        lemma_field_keys(p);
        lemma_field_entries(p.fields());
        assert(YamlTree::Hash(field_entries(p.fields())).writable());
        assert(YamlTree::keys(profile_tree(p)->Hash_0).no_duplicates());
    }
    assert(text_list(config.mibs).writable());
    let list = YamlTree::Arr(config.profiles.map_values(|p: ProfileView| profile_tree(p)));
    assert(list.writable());
}

proof fn lemma_root_keys(config: ConfigView)
    ensures
        YamlTree::keys(config_tree(config)->Hash_0).no_duplicates(),
        faithful_key("mibs"@),
        faithful_key("active_profile"@),
        faithful_key("profiles"@),
{
    reveal_strlit("mibs");
    reveal_strlit("active_profile");
    reveal_strlit("profiles");
    assert("mibs"@.len() == 4);
    assert("active_profile"@.len() == 14);
    assert("profiles"@.len() == 8);
    lemma_short_key("mibs"@);
    lemma_short_key("active_profile"@);
    lemma_short_key("profiles"@);
}

/// Settings whose texts are all read back as they were written become a document that is.
pub proof fn lemma_config_faithful(config: ConfigView)
    requires
        faithful_config(config),
    ensures
        config_tree(config).faithful(),
{
    lemma_root_keys(config);
    reveal_with_fuel(YamlTree::faithful, 7);
    assert forall|i: int| 0 <= i < config.profiles.len() implies profile_tree(
        #[trigger] config.profiles[i],
    ).faithful() by {
        let p = config.profiles[i];
        let fields = p.fields();
        lemma_field_keys(p);
        lemma_field_entries(fields);
        let entries = field_entries(fields);
        assert forall|k: int| 0 <= k < entries.len() implies (#[trigger] entries[k]).0 is Str
            && faithful_key(entries[k].0->Str_0) && entries[k].1.faithful() by {
            let pair = (entries[k].0->Str_0, entries[k].1->Str_0);
            assert(fields.contains(pair));
            let j = choose|j: int| 0 <= j < fields.len() && fields[j] == pair;
            assert(faithful_text(fields[j].1));
            assert(faithful_key(fields[j].0));
        }
        assert(YamlTree::Hash(entries).faithful());
        assert(YamlTree::keys(profile_tree(p)->Hash_0).no_duplicates());
    }
    assert(text_list(config.mibs).faithful());
    let list = YamlTree::Arr(config.profiles.map_values(|p: ProfileView| profile_tree(p)));
    assert(list.faithful());
}

/// Under a key stands the value of the first entry with that key, and nothing where there is none.
pub proof fn law_lookup(entries: Seq<(YamlTree, YamlTree)>, key: Seq<char>)
    ensures
        forall|i: int|
            0 <= i < entries.len() && (#[trigger] entries[i]).0 == YamlTree::Str(key) && (forall|
                j: int,
            |
                0 <= j < i ==> (#[trigger] entries[j]).0 != YamlTree::Str(key)) ==> lookup(
                entries,
                key,
            ) == entries[i].1,
        (forall|j: int| 0 <= j < entries.len() ==> (#[trigger] entries[j]).0 != YamlTree::Str(key))
            ==> lookup(entries, key) == YamlTree::Other,
    decreases entries.len(),
{
    if entries.len() > 0 {
        let rest = entries.drop_first();
        law_lookup(rest, key);
        assert(forall|j: int| 0 <= j < rest.len() ==> #[trigger] rest[j] == entries[j + 1]);
        assert forall|i: int|
            0 <= i < entries.len() && (#[trigger] entries[i]).0 == YamlTree::Str(key) && (forall|
                j: int,
            |
                0 <= j < i ==> (#[trigger] entries[j]).0 != YamlTree::Str(key)) implies lookup(
            entries,
            key,
        ) == entries[i].1 by {
            if i > 0 {
                assert(entries[0].0 != YamlTree::Str(key));
                assert(rest[i - 1] == entries[i]);
                assert forall|j: int| 0 <= j < i - 1 implies (#[trigger] rest[j]).0
                    != YamlTree::Str(key) by {
                    assert(entries[j + 1].0 != YamlTree::Str(key));
                }
            }
        }
        if forall|j: int| 0 <= j < entries.len() ==> (#[trigger] entries[j]).0 != YamlTree::Str(key) {
            assert(entries[0].0 != YamlTree::Str(key));
            assert forall|j: int| 0 <= j < rest.len() implies (#[trigger] rest[j]).0
                != YamlTree::Str(key) by {
                assert(entries[j + 1].0 != YamlTree::Str(key));
            }
        }
    }
}

/// A mapping holds under a key what its entries do, any other document nothing. A value that is
/// no text counts as an empty text.
pub proof fn law_value_at(
    doc: YamlTree,
    entries: Seq<(YamlTree, YamlTree)>,
    key: Seq<char>,
    text: Seq<char>,
)
    ensures
        value_at(YamlTree::Hash(entries), key) == lookup(entries, key),
        !(doc is Hash) ==> value_at(doc, key) == YamlTree::Other,
        lookup(entries, key) == YamlTree::Str(text) ==> text_at(entries, key) == text,
        !(lookup(entries, key) is Str) ==> text_at(entries, key).len() == 0,
{
}

/// The texts of two lists follow each other; of a single item only a text that is not empty
/// counts.
pub proof fn law_filled_texts(a: Seq<YamlTree>, b: Seq<YamlTree>, item: YamlTree)
    ensures
        filled_texts(Seq::empty()) == Seq::<Seq<char>>::empty(),
        filled_texts(seq![item]) == (match item {
            YamlTree::Str(s) => if s.len() > 0 {
                seq![s]
            } else {
                Seq::empty()
            },
            _ => Seq::empty(),
        }),
        filled_texts(a + b) == filled_texts(a) + filled_texts(b),
    decreases b.len(),
{
    let one = seq![item];
    assert(one.drop_last() =~= Seq::empty());
    assert(filled_texts(one.drop_last()) =~= Seq::empty());
    assert(filled_texts(one) =~= match item {
        YamlTree::Str(s) => if s.len() > 0 {
            seq![s]
        } else {
            Seq::empty()
        },
        _ => Seq::empty(),
    });
    if b.len() > 0 {
        law_filled_texts(a, b.drop_last(), item);
        assert((a + b).drop_last() =~= a + b.drop_last());
    } else {
        assert(a + b =~= a);
    }
    assert(filled_texts(a + b) =~= filled_texts(a) + filled_texts(b));
}

/// A profile takes each setting from the text under its own key.
pub proof fn law_profile_of(name: Seq<char>, props: Seq<(YamlTree, YamlTree)>)
    ensures
        profile_of(name, props).name == name,
        profile_of(name, props).host == text_at(props, "host"@),
        profile_of(name, props).version == text_at(props, "version"@),
        profile_of(name, props).community == text_at(props, "community"@),
        profile_of(name, props).security_engine_id == text_at(props, "security_engine_id"@),
        profile_of(name, props).context_engine_id == text_at(props, "context_engine_id"@),
        profile_of(name, props).security_level == text_at(props, "security_level"@),
        profile_of(name, props).auth_protocol == text_at(props, "auth-proto"@),
        profile_of(name, props).auth_passphrase == text_at(props, "auth-key"@),
        profile_of(name, props).privacy_protocol == text_at(props, "priv-proto"@),
        profile_of(name, props).privacy_passphrase == text_at(props, "priv-key"@),
{
}

/// The profiles of two mappings follow each other; a single entry is a profile exactly where it
/// maps a text to a mapping.
pub proof fn law_entry_profiles(
    a: Seq<(YamlTree, YamlTree)>,
    b: Seq<(YamlTree, YamlTree)>,
    key: YamlTree,
    value: YamlTree,
)
    ensures
        entry_profiles(Seq::empty()) == Seq::<ProfileView>::empty(),
        entry_profiles(seq![(key, value)]) == (match (key, value) {
            (YamlTree::Str(name), YamlTree::Hash(props)) => seq![profile_of(name, props)],
            _ => Seq::empty(),
        }),
        entry_profiles(a + b) == entry_profiles(a) + entry_profiles(b),
    decreases b.len(),
{
    let one = seq![(key, value)];
    assert(one.drop_last() =~= Seq::empty());
    assert(entry_profiles(one.drop_last()) =~= Seq::empty());
    assert(entry_profiles(one) =~= match (key, value) {
        (YamlTree::Str(name), YamlTree::Hash(props)) => seq![profile_of(name, props)],
        _ => Seq::empty(),
    });
    if b.len() > 0 {
        law_entry_profiles(a, b.drop_last(), key, value);
        assert((a + b).drop_last() =~= a + b.drop_last());
    } else {
        assert(a + b =~= a);
    }
    assert(entry_profiles(a + b) =~= entry_profiles(a) + entry_profiles(b));
}

/// The profiles of two lists follow each other; a single item has profiles exactly where it is a
/// mapping.
pub proof fn law_listed_profiles(a: Seq<YamlTree>, b: Seq<YamlTree>, item: YamlTree)
    ensures
        listed_profiles(Seq::empty()) == Seq::<ProfileView>::empty(),
        listed_profiles(seq![item]) == (match item {
            YamlTree::Hash(entries) => entry_profiles(entries),
            _ => Seq::empty(),
        }),
        listed_profiles(a + b) == listed_profiles(a) + listed_profiles(b),
    decreases b.len(),
{
    let one = seq![item];
    assert(one.drop_last() =~= Seq::empty());
    assert(listed_profiles(one.drop_last()) =~= Seq::empty());
    assert(listed_profiles(one) =~= match item {
        YamlTree::Hash(entries) => entry_profiles(entries),
        _ => Seq::empty(),
    });
    if b.len() > 0 {
        law_listed_profiles(a, b.drop_last(), item);
        assert((a + b).drop_last() =~= a + b.drop_last());
    } else {
        assert(a + b =~= a);
    }
    assert(listed_profiles(a + b) =~= listed_profiles(a) + listed_profiles(b));
}

/// The settings of a document are the texts under `mibs`, the text under `active_profile` and the
/// profiles under `profiles`; what has another shape counts as nothing.
pub proof fn law_config_of(doc: YamlTree, items: Seq<YamlTree>, text: Seq<char>)
    ensures
        value_at(doc, "mibs"@) == YamlTree::Arr(items) ==> config_of(doc).mibs == filled_texts(items),
        !(value_at(doc, "mibs"@) is Arr) ==> config_of(doc).mibs.len() == 0,
        value_at(doc, "active_profile"@) == YamlTree::Str(text) ==> config_of(doc).active_profile
            == text,
        !(value_at(doc, "active_profile"@) is Str) ==> config_of(doc).active_profile.len() == 0,
        value_at(doc, "profiles"@) == YamlTree::Arr(items) ==> config_of(doc).profiles
            == listed_profiles(items),
        !(value_at(doc, "profiles"@) is Arr) ==> config_of(doc).profiles.len() == 0,
{
}

/// A settings file holds the settings of its first document. They are empty where the file is
/// missing, is no YAML, or has no document.
pub proof fn law_stored_config(text: Seq<char>, docs: Seq<YamlTree>)
    ensures
        stored_config(None).mibs.len() == 0,
        stored_config(None).active_profile.len() == 0,
        stored_config(None).profiles.len() == 0,
        yaml_load(text) is None || yaml_load(text) == Some(Seq::<YamlTree>::empty())
            ==> stored_config(Some(text)) == stored_config(None),
        yaml_load(text) == Some(docs) && docs.len() > 0 ==> stored_config(Some(text)) == config_of(
            docs[0],
        ),
{
}

/// A setting is written under its key exactly where it is not empty; the settings of two lists
/// follow each other.
pub proof fn law_field_entries(
    a: Seq<(Seq<char>, Seq<char>)>,
    b: Seq<(Seq<char>, Seq<char>)>,
    key: Seq<char>,
    value: Seq<char>,
)
    ensures
        field_entries(Seq::empty()) == Seq::<(YamlTree, YamlTree)>::empty(),
        field_entries(seq![(key, value)]) == (if value.len() > 0 {
            seq![(YamlTree::Str(key), YamlTree::Str(value))]
        } else {
            Seq::empty()
        }),
        field_entries(a + b) == field_entries(a) + field_entries(b),
    decreases a.len(),
{
    let one = seq![(key, value)];
    assert(one.drop_first() =~= Seq::empty());
    assert(field_entries(one.drop_first()) =~= Seq::empty());
    assert(field_entries(one) =~= if value.len() > 0 {
        seq![(YamlTree::Str(key), YamlTree::Str(value))]
    } else {
        Seq::empty()
    });
    if a.len() > 0 {
        law_field_entries(a.drop_first(), b, key, value);
        assert((a + b).drop_first() =~= a.drop_first() + b);
        assert((a + b).first() == a.first());
    } else {
        assert(a + b =~= b);
    }
    assert(field_entries(a + b) =~= field_entries(a) + field_entries(b));
}

/// A profile has ten settings, each under its own key.
pub proof fn law_fields(profile: ProfileView)
    ensures
        profile.fields().len() == 10,
        profile.fields()[0] == ("host"@, profile.host),
        profile.fields()[1] == ("version"@, profile.version),
        profile.fields()[2] == ("community"@, profile.community),
        profile.fields()[3] == ("security_engine_id"@, profile.security_engine_id),
        profile.fields()[4] == ("context_engine_id"@, profile.context_engine_id),
        profile.fields()[5] == ("security_level"@, profile.security_level),
        profile.fields()[6] == ("auth-proto"@, profile.auth_protocol),
        profile.fields()[7] == ("auth-key"@, profile.auth_passphrase),
        profile.fields()[8] == ("priv-proto"@, profile.privacy_protocol),
        profile.fields()[9] == ("priv-key"@, profile.privacy_passphrase),
{
}

/// The document of settings lists all MIB files, then the active profile where there is one, then
/// all profiles where there are any, and nothing else. Each profile is one entry from its name to
/// its settings.
pub proof fn law_config_tree(config: ConfigView)
    ensures
        ({
            let entries = config_tree(config)->Hash_0;
            let active: int = if config.active_profile.len() > 0 {
                1
            } else {
                0
            };
            let any: int = if config.profiles.len() > 0 {
                1
            } else {
                0
            };
            let mibs = entries[0].1->Arr_0;
            let list = entries[1 + active].1->Arr_0;
            &&& config_tree(config) is Hash
            &&& entries.len() == 1 + active + any
            &&& entries[0].0 == YamlTree::Str("mibs"@)
            &&& entries[0].1 is Arr
            &&& mibs.len() == config.mibs.len()
            &&& forall|i: int|
                0 <= i < config.mibs.len() ==> #[trigger] mibs[i] == YamlTree::Str(config.mibs[i])
            &&& active == 1 ==> entries[1] == (
                YamlTree::Str("active_profile"@),
                YamlTree::Str(config.active_profile),
            )
            &&& any == 1 ==> {
                &&& entries[1 + active].0 == YamlTree::Str("profiles"@)
                &&& entries[1 + active].1 is Arr
                &&& list.len() == config.profiles.len()
                &&& forall|i: int|
                    0 <= i < config.profiles.len() ==> #[trigger] list[i] == YamlTree::Hash(
                        seq![
                            (
                                YamlTree::Str(config.profiles[i].name),
                                YamlTree::Hash(field_entries(config.profiles[i].fields())),
                            ),
                        ],
                    )
            }
        }),
{
}

/// Of settings everything is kept but the empty MIB paths, and the order of the others.
pub proof fn law_kept(
    config: ConfigView,
    a: Seq<Seq<char>>,
    b: Seq<Seq<char>>,
    path: Seq<char>,
)
    ensures
        kept(config).active_profile == config.active_profile,
        kept(config).profiles == config.profiles,
        kept(ConfigView { mibs: Seq::empty(), ..config }).mibs.len() == 0,
        kept(ConfigView { mibs: seq![path], ..config }).mibs == (if path.len() > 0 {
            seq![path]
        } else {
            Seq::empty()
        }),
        kept(ConfigView { mibs: a + b, ..config }).mibs == kept(
            ConfigView { mibs: a, ..config },
        ).mibs + kept(ConfigView { mibs: b, ..config }).mibs,
{
    let filled = |mib: Seq<char>| mib.len() > 0;
    Seq::filter_distributes_over_add(a, b, filled);
    reveal(Seq::filter);
    let one = seq![path];
    assert(one.drop_last() =~= Seq::empty());
    assert(one.drop_last().filter(filled) =~= Seq::empty());
    assert(kept(ConfigView { mibs: one, ..config }).mibs =~= if path.len() > 0 {
        seq![path]
    } else {
        Seq::empty()
    });
}

/// Settings are given back by YAML wherever every text among them is, each profile's name as a
/// key.
pub proof fn law_faithful_config(config: ConfigView)
    requires
        forall|i: int| 0 <= i < config.mibs.len() ==> faithful_text(#[trigger] config.mibs[i]),
        faithful_text(config.active_profile),
        forall|i: int|
            0 <= i < config.profiles.len() ==> {
                let p = #[trigger] config.profiles[i];
                &&& faithful_key(p.name)
                &&& faithful_text(p.host)
                &&& faithful_text(p.version)
                &&& faithful_text(p.community)
                &&& faithful_text(p.security_engine_id)
                &&& faithful_text(p.context_engine_id)
                &&& faithful_text(p.security_level)
                &&& faithful_text(p.auth_protocol)
                &&& faithful_text(p.auth_passphrase)
                &&& faithful_text(p.privacy_protocol)
                &&& faithful_text(p.privacy_passphrase)
            },
    ensures
        faithful_config(config),
{
}

/// The views of profiles and settings hold their fields, and their lists item by item.
pub proof fn law_config_views(config: Config, p: Profile)
    ensures
        config@.mibs.len() == config.mibs@.len(),
        forall|i: int|
            0 <= i < config.mibs@.len() ==> #[trigger] config@.mibs[i] == config.mibs@[i]@,
        config@.active_profile == config.active_profile@,
        config@.profiles.len() == config.profiles@.len(),
        forall|i: int|
            0 <= i < config.profiles@.len() ==> #[trigger] config@.profiles[i]
                == config.profiles@[i]@,
        p@.name == p.name@,
        p@.host == p.host@,
        p@.version == p.version@,
        p@.community == p.community@,
        p@.security_engine_id == p.security_engine_id@,
        p@.context_engine_id == p.context_engine_id@,
        p@.security_level == p.security_level@,
        p@.auth_protocol == p.auth_protocol@,
        p@.auth_passphrase == p.auth_passphrase@,
        p@.privacy_protocol == p.privacy_protocol@,
        p@.privacy_passphrase == p.privacy_passphrase@,
{
}

/// Empty settings hold nothing, and a profile that only has a name has nothing else.
pub proof fn law_empty_settings(name: Seq<char>)
    ensures
        ConfigView::empty().mibs.len() == 0,
        ConfigView::empty().active_profile.len() == 0,
        ConfigView::empty().profiles.len() == 0,
        ProfileView::named(name).name == name,
        ProfileView::named(name).host.len() == 0,
        ProfileView::named(name).version.len() == 0,
        ProfileView::named(name).community.len() == 0,
        ProfileView::named(name).security_engine_id.len() == 0,
        ProfileView::named(name).context_engine_id.len() == 0,
        ProfileView::named(name).security_level.len() == 0,
        ProfileView::named(name).auth_protocol.len() == 0,
        ProfileView::named(name).auth_passphrase.len() == 0,
        ProfileView::named(name).privacy_protocol.len() == 0,
        ProfileView::named(name).privacy_passphrase.len() == 0,
{
}

/// The document that a plain value holds has its shape, its texts, and its items one by one.
pub proof fn law_yaml_values(value: YamlValue, values: Seq<YamlValue>)
    ensures
        value matches YamlValue::Str(s) ==> value.tree() == YamlTree::Str(s@),
        value matches YamlValue::Arr(items) ==> {
            &&& value.tree() is Arr
            &&& value.tree()->Arr_0.len() == items@.len()
            &&& forall|i: int|
                0 <= i < items@.len() ==> #[trigger] value.tree()->Arr_0[i] == items@[i].tree()
        },
        value matches YamlValue::Hash(entries) ==> {
            &&& value.tree() is Hash
            &&& value.tree()->Hash_0.len() == entries@.len()
            &&& forall|i: int|
                0 <= i < entries@.len() ==> #[trigger] value.tree()->Hash_0[i] == (
                    entries@[i].0.tree(),
                    entries@[i].1.tree(),
                )
        },
        value is Other ==> value.tree() == YamlTree::Other,
        value_trees(values).len() == values.len(),
        forall|i: int| 0 <= i < values.len() ==> #[trigger] value_trees(values)[i] == values[i].tree(),
{
}

/// YAML gives back every text that starts neither with `0` nor with `+`, and as a key where it is
/// short.
pub proof fn law_most_texts_are_faithful(s: Seq<char>)
    requires
        s.len() > 0 ==> s[0] != '0' && s[0] != '+',
    ensures
        faithful_text(s),
        s.len() <= 170 ==> faithful_key(s),
{
    lemma_quoted_len(s);
}

} // verus!
