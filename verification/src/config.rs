//! Settings: the loaded MIB files, the device profiles and the active profile.

use vstd::prelude::*;

use crate::config_laws::{
    law_document_round_trip, lemma_config_faithful, lemma_config_writable,
};
use crate::yaml::{
    faithful_key, faithful_text, parse_yaml, value_trees, write_yaml, yaml_dump, yaml_load,
    YamlTree, YamlValue,
};

verus! {

/// How a device is reached.
pub struct Profile {
    pub name: String,
    pub host: String,
    pub version: String,
    pub community: String,
    pub security_engine_id: String,
    pub context_engine_id: String,
    pub security_level: String,
    pub auth_protocol: String,
    pub auth_passphrase: String,
    pub privacy_protocol: String,
    pub privacy_passphrase: String,
}

/// The texts of a `Profile`.
pub struct ProfileView {
    pub name: Seq<char>,
    pub host: Seq<char>,
    pub version: Seq<char>,
    pub community: Seq<char>,
    pub security_engine_id: Seq<char>,
    pub context_engine_id: Seq<char>,
    pub security_level: Seq<char>,
    pub auth_protocol: Seq<char>,
    pub auth_passphrase: Seq<char>,
    pub privacy_protocol: Seq<char>,
    pub privacy_passphrase: Seq<char>,
}

impl View for Profile {
    type V = ProfileView;

    open spec fn view(&self) -> ProfileView {
        ProfileView {
            name: self.name@,
            host: self.host@,
            version: self.version@,
            community: self.community@,
            security_engine_id: self.security_engine_id@,
            context_engine_id: self.context_engine_id@,
            security_level: self.security_level@,
            auth_protocol: self.auth_protocol@,
            auth_passphrase: self.auth_passphrase@,
            privacy_protocol: self.privacy_protocol@,
            privacy_passphrase: self.privacy_passphrase@,
        }
    }
}

impl ProfileView {
    /// A profile with a name and nothing else.
    pub open spec fn named(name: Seq<char>) -> ProfileView {
        ProfileView {
            name,
            host: Seq::empty(),
            version: Seq::empty(),
            community: Seq::empty(),
            security_engine_id: Seq::empty(),
            context_engine_id: Seq::empty(),
            security_level: Seq::empty(),
            auth_protocol: Seq::empty(),
            auth_passphrase: Seq::empty(),
            privacy_protocol: Seq::empty(),
            privacy_passphrase: Seq::empty(),
        }
    }

    /// The settings of the profile, each under its key in the settings file.
    pub open spec fn fields(self) -> Seq<(Seq<char>, Seq<char>)> {
        seq![
            ("host"@, self.host),
            ("version"@, self.version),
            ("community"@, self.community),
            ("security_engine_id"@, self.security_engine_id),
            ("context_engine_id"@, self.context_engine_id),
            ("security_level"@, self.security_level),
            ("auth-proto"@, self.auth_protocol),
            ("auth-key"@, self.auth_passphrase),
            ("priv-proto"@, self.privacy_protocol),
            ("priv-key"@, self.privacy_passphrase),
        ]
    }
}

impl Clone for Profile {
    fn clone(&self) -> (r: Self)
        ensures
            r == *self,
    {
        Profile {
            name: self.name.clone(),
            host: self.host.clone(),
            version: self.version.clone(),
            community: self.community.clone(),
            security_engine_id: self.security_engine_id.clone(),
            context_engine_id: self.context_engine_id.clone(),
            security_level: self.security_level.clone(),
            auth_protocol: self.auth_protocol.clone(),
            auth_passphrase: self.auth_passphrase.clone(),
            privacy_protocol: self.privacy_protocol.clone(),
            privacy_passphrase: self.privacy_passphrase.clone(),
        }
    }
}

impl Default for Profile {
    fn default() -> (r: Self)
        ensures
            r@ == ProfileView::named(Seq::empty()),
    {
        Profile {
            name: String::new(),
            host: String::new(),
            version: String::new(),
            community: String::new(),
            security_engine_id: String::new(),
            context_engine_id: String::new(),
            security_level: String::new(),
            auth_protocol: String::new(),
            auth_passphrase: String::new(),
            privacy_protocol: String::new(),
            privacy_passphrase: String::new(),
        }
    }
}

/// Everything that the settings file keeps.
pub struct Config {
    pub mibs: Vec<String>,
    pub active_profile: String,
    pub profiles: Vec<Profile>,
}

/// The contents of a `Config`.
pub struct ConfigView {
    pub mibs: Seq<Seq<char>>,
    pub active_profile: Seq<char>,
    pub profiles: Seq<ProfileView>,
}

impl View for Config {
    type V = ConfigView;

    open spec fn view(&self) -> ConfigView {
        ConfigView {
            mibs: self.mibs@.map_values(|mib: String| mib@),
            active_profile: self.active_profile@,
            profiles: self.profiles@.map_values(|profile: Profile| profile@),
        }
    }
}

impl ConfigView {
    /// Settings that hold nothing.
    pub open spec fn empty() -> ConfigView {
        ConfigView { mibs: Seq::empty(), active_profile: Seq::empty(), profiles: Seq::empty() }
    }
}

impl Default for Config {
    fn default() -> (r: Self)
        ensures
            r@ == ConfigView::empty(),
    {
        let r = Config { mibs: Vec::new(), active_profile: String::new(), profiles: Vec::new() };
        assert(r@.mibs =~= Seq::empty());
        assert(r@.profiles =~= Seq::empty());
        r
    }
}

/// The value under the text `key` in a mapping; `Other` where there is none.
pub open spec fn lookup(entries: Seq<(YamlTree, YamlTree)>, key: Seq<char>) -> YamlTree
    decreases entries.len(),
{
    if entries.len() == 0 {
        YamlTree::Other
    } else if entries.first().0 == YamlTree::Str(key) {
        entries.first().1
    } else {
        lookup(entries.drop_first(), key)
    }
}

/// The value under the text `key` of a document; `Other` where it is no mapping with that key.
pub open spec fn value_at(tree: YamlTree, key: Seq<char>) -> YamlTree {
    match tree {
        YamlTree::Hash(entries) => lookup(entries, key),
        _ => YamlTree::Other,
    }
}

/// The text under `key`; empty where there is no text.
pub open spec fn text_at(entries: Seq<(YamlTree, YamlTree)>, key: Seq<char>) -> Seq<char> {
    match lookup(entries, key) {
        YamlTree::Str(s) => s,
        _ => Seq::empty(),
    }
}

/// The texts among `items` that are not empty, in order.
pub open spec fn filled_texts(items: Seq<YamlTree>) -> Seq<Seq<char>>
    decreases items.len(),
{
    if items.len() == 0 {
        Seq::empty()
    } else {
        let before = filled_texts(items.drop_last());
        match items.last() {
            YamlTree::Str(s) if s.len() > 0 => before.push(s),
            _ => before,
        }
    }
}

/// The profile called `name` with the settings `props`.
pub open spec fn profile_of(name: Seq<char>, props: Seq<(YamlTree, YamlTree)>) -> ProfileView {
    ProfileView {
        name,
        host: text_at(props, "host"@),
        version: text_at(props, "version"@),
        community: text_at(props, "community"@),
        security_engine_id: text_at(props, "security_engine_id"@),
        context_engine_id: text_at(props, "context_engine_id"@),
        security_level: text_at(props, "security_level"@),
        auth_protocol: text_at(props, "auth-proto"@),
        auth_passphrase: text_at(props, "auth-key"@),
        privacy_protocol: text_at(props, "priv-proto"@),
        privacy_passphrase: text_at(props, "priv-key"@),
    }
}

/// One profile for each entry that maps a text to a mapping, in order.
pub open spec fn entry_profiles(entries: Seq<(YamlTree, YamlTree)>) -> Seq<ProfileView>
    decreases entries.len(),
{
    if entries.len() == 0 {
        Seq::empty()
    } else {
        let before = entry_profiles(entries.drop_last());
        match entries.last() {
            (YamlTree::Str(name), YamlTree::Hash(props)) => before.push(profile_of(name, props)),
            _ => before,
        }
    }
}

/// The profiles of all mappings among `items`, in order.
pub open spec fn listed_profiles(items: Seq<YamlTree>) -> Seq<ProfileView>
    decreases items.len(),
{
    if items.len() == 0 {
        Seq::empty()
    } else {
        let before = listed_profiles(items.drop_last());
        match items.last() {
            YamlTree::Hash(entries) => before + entry_profiles(entries),
            _ => before,
        }
    }
}

/// The settings that a document holds. What it lacks, or holds in another shape, stays empty.
pub open spec fn config_of(doc: YamlTree) -> ConfigView {
    ConfigView {
        mibs: match value_at(doc, "mibs"@) {
            YamlTree::Arr(items) => filled_texts(items),
            _ => Seq::empty(),
        },
        active_profile: match value_at(doc, "active_profile"@) {
            YamlTree::Str(s) => s,
            _ => Seq::empty(),
        },
        profiles: match value_at(doc, "profiles"@) {
            YamlTree::Arr(items) => listed_profiles(items),
            _ => Seq::empty(),
        },
    }
}

/// The settings in a settings file: those of its first document, and empty settings where the
/// file cannot be read, is no YAML, or holds no document.
pub open spec fn stored_config(raw: Option<Seq<char>>) -> ConfigView {
    match raw {
        Some(text) => match yaml_load(text) {
            Some(docs) if docs.len() > 0 => config_of(docs[0]),
            _ => ConfigView::empty(),
        },
        None => ConfigView::empty(),
    }
}

/// Finds the value under the text `key`.
fn find<'a>(entries: &'a Vec<(YamlValue, YamlValue)>, key: &str) -> (r: Option<&'a YamlValue>)
    ensures
        ({
            let tree = YamlValue::Hash(*entries).tree()->Hash_0;
            match r {
                Some(value) => lookup(tree, key@) == value.tree(),
                None => lookup(tree, key@) == YamlTree::Other,
            }
        }),
{
    let ghost tree = YamlValue::Hash(*entries).tree()->Hash_0;
    let wanted = key.to_owned();
    let mut i: usize = 0;
    assert(tree.skip(0) =~= tree);
    while i < entries.len()
        invariant
            i <= entries@.len(),
            tree == YamlValue::Hash(*entries).tree()->Hash_0,
            tree.len() == entries@.len(),
            wanted@ == key@,
            lookup(tree, key@) == lookup(tree.skip(i as int), key@),
        decreases entries@.len() - i,
    {
        assert(tree[i as int] == (entries@[i as int].0.tree(), entries@[i as int].1.tree()));
        assert(tree.skip(i as int).drop_first() =~= tree.skip(i + 1));
        if let YamlValue::Str(name) = &entries[i].0 {
            if *name == wanted {
                return Some(&entries[i].1);
            }
        }
        i += 1;
    }
    None
}

/// Finds the value under the text `key` of a document.
fn find_in<'a>(doc: &'a YamlValue, key: &str) -> (r: Option<&'a YamlValue>)
    ensures
        match r {
            Some(value) => value_at(doc.tree(), key@) == value.tree(),
            None => value_at(doc.tree(), key@) == YamlTree::Other,
        },
{
    match doc {
        YamlValue::Hash(entries) => find(entries, key),
        _ => None,
    }
}

/// The text under `key`; empty where there is no text.
fn get_str(props: &Vec<(YamlValue, YamlValue)>, key: &str) -> (r: String)
    ensures
        r@ == text_at(YamlValue::Hash(*props).tree()->Hash_0, key@),
{
    match find(props, key) {
        Some(YamlValue::Str(s)) => s.clone(),
        _ => String::new(),
    }
}

/// The profile called `name` with the settings `props`.
fn read_profile(name: &String, props: &Vec<(YamlValue, YamlValue)>) -> (r: Profile)
    ensures
        r@ == profile_of(name@, YamlValue::Hash(*props).tree()->Hash_0),
{
    Profile {
        name: name.clone(),
        host: get_str(props, "host"),
        version: get_str(props, "version"),
        community: get_str(props, "community"),
        security_engine_id: get_str(props, "security_engine_id"),
        context_engine_id: get_str(props, "context_engine_id"),
        security_level: get_str(props, "security_level"),
        auth_protocol: get_str(props, "auth-proto"),
        auth_passphrase: get_str(props, "auth-key"),
        privacy_protocol: get_str(props, "priv-proto"),
        privacy_passphrase: get_str(props, "priv-key"),
    }
}

/// The texts among `items` that are not empty.
fn read_mibs(items: &Vec<YamlValue>) -> (r: Vec<String>)
    ensures
        r@.map_values(|mib: String| mib@) == filled_texts(YamlValue::Arr(*items).tree()->Arr_0),
{
    let ghost tree = YamlValue::Arr(*items).tree()->Arr_0;
    let mut mibs: Vec<String> = Vec::new();
    let mut i: usize = 0;
    while i < items.len()
        invariant
            i <= items@.len(),
            tree == YamlValue::Arr(*items).tree()->Arr_0,
            tree.len() == items@.len(),
            mibs@.map_values(|mib: String| mib@) == filled_texts(tree.take(i as int)),
        decreases items@.len() - i,
    {
        assert(tree[i as int] == items@[i as int].tree());
        assert(tree.take(i + 1).drop_last() =~= tree.take(i as int));
        let ghost before = mibs@;
        if let YamlValue::Str(s) = &items[i] {
            if !s.as_str().is_empty() {
                mibs.push(s.clone());
                assert(mibs@.map_values(|mib: String| mib@) =~= before.map_values(
                    |mib: String| mib@,
                ).push(s@));
            }
        }
        i += 1;
    }
    assert(tree.take(items@.len() as int) =~= tree);
    mibs
}

/// Appends the profiles of one mapping to `profiles`.
fn read_entries(entries: &Vec<(YamlValue, YamlValue)>, profiles: &mut Vec<Profile>)
    ensures
        final(profiles)@.map_values(|p: Profile| p@) == old(profiles)@.map_values(
            |p: Profile| p@,
        ) + entry_profiles(YamlValue::Hash(*entries).tree()->Hash_0),
{
    let ghost tree = YamlValue::Hash(*entries).tree()->Hash_0;
    let ghost start = profiles@.map_values(|p: Profile| p@);
    let mut i: usize = 0;
    assert(start + entry_profiles(tree.take(0)) =~= start);
    while i < entries.len()
        invariant
            i <= entries@.len(),
            tree == YamlValue::Hash(*entries).tree()->Hash_0,
            tree.len() == entries@.len(),
            profiles@.map_values(|p: Profile| p@) == start + entry_profiles(tree.take(i as int)),
        decreases entries@.len() - i,
    {
        assert(tree[i as int] == (entries@[i as int].0.tree(), entries@[i as int].1.tree()));
        assert(tree.take(i + 1).drop_last() =~= tree.take(i as int));
        let ghost before = profiles@;
        match (&entries[i].0, &entries[i].1) {
            (YamlValue::Str(name), YamlValue::Hash(props)) => {
                let profile = read_profile(name, props);
                profiles.push(profile);
                assert(profiles@.map_values(|p: Profile| p@) =~= before.map_values(
                    |p: Profile| p@,
                ).push(profile@));
                assert(profiles@.map_values(|p: Profile| p@) =~= start + entry_profiles(
                    tree.take(i + 1),
                ));
            },
            _ => {},
        }
        i += 1;
    }
    assert(tree.take(entries@.len() as int) =~= tree);
}

/// The profiles of all mappings among `items`.
fn read_profiles(items: &Vec<YamlValue>) -> (r: Vec<Profile>)
    ensures
        r@.map_values(|p: Profile| p@) == listed_profiles(YamlValue::Arr(*items).tree()->Arr_0),
{
    let ghost tree = YamlValue::Arr(*items).tree()->Arr_0;
    let mut profiles: Vec<Profile> = Vec::new();
    let mut i: usize = 0;
    while i < items.len()
        invariant
            i <= items@.len(),
            tree == YamlValue::Arr(*items).tree()->Arr_0,
            tree.len() == items@.len(),
            profiles@.map_values(|p: Profile| p@) == listed_profiles(tree.take(i as int)),
        decreases items@.len() - i,
    {
        assert(tree[i as int] == items@[i as int].tree());
        assert(tree.take(i + 1).drop_last() =~= tree.take(i as int));
        if let YamlValue::Hash(entries) = &items[i] {
            read_entries(entries, &mut profiles);
        }
        i += 1;
    }
    assert(tree.take(items@.len() as int) =~= tree);
    profiles
}

/// The settings that a document holds.
pub fn config_from_yaml(doc: &YamlValue) -> (r: Config)
    ensures
        r@ == config_of(doc.tree()),
{
    let mibs = match find_in(doc, "mibs") {
        Some(YamlValue::Arr(items)) => read_mibs(items),
        _ => Vec::new(),
    };
    let active_profile = match find_in(doc, "active_profile") {
        Some(YamlValue::Str(s)) => s.clone(),
        _ => String::new(),
    };
    let profiles = match find_in(doc, "profiles") {
        Some(YamlValue::Arr(items)) => read_profiles(items),
        _ => Vec::new(),
    };
    let r = Config { mibs, active_profile, profiles };
    assert(r@.mibs =~= config_of(doc.tree()).mibs);
    assert(r@.profiles =~= config_of(doc.tree()).profiles);
    r
}

/// The settings in the documents of a settings file: those of the first document.
pub fn config_from_docs(docs: &Vec<YamlValue>) -> (r: Config)
    ensures
        r@ == (if docs@.len() > 0 {
            config_of(docs@[0].tree())
        } else {
            ConfigView::empty()
        }),
{
    if docs.len() > 0 {
        config_from_yaml(&docs[0])
    } else {
        Config::default()
    }
}

/// The settings in a settings file with the text `raw`, or why that text is no YAML.
pub fn try_load_config(raw: &str) -> (r: Result<Config, yaml_rust2::ScanError>)
    ensures
        match r {
            Ok(config) => yaml_load(raw@) is Some && config@ == stored_config(Some(raw@)),
            Err(_) => yaml_load(raw@) is None,
        },
{
    match parse_yaml(raw) {
        Ok(docs) => {
            let config = config_from_docs(&docs);
            assert(docs@.len() > 0 ==> value_trees(docs@)[0] == docs@[0].tree());
            Ok(config)
        },
        Err(e) => Err(e),
    }
}

/// The settings in a settings file, whose text is `raw`; `None` stands for a file that is
/// missing or cannot be read.
pub fn load_config(raw: Option<&str>) -> (r: Config)
    ensures
        r@ == stored_config(match raw {
            Some(text) => Some(text@),
            None => None,
        }),
{
    match raw {
        Some(text) => match try_load_config(text) {
            Ok(config) => config,
            Err(_) => Config::default(),
        },
        None => Config::default(),
    }
}

/// A sequence of texts as a document.
pub open spec fn text_list(items: Seq<Seq<char>>) -> YamlTree {
    YamlTree::Arr(items.map_values(|s: Seq<char>| YamlTree::Str(s)))
}

/// One entry for each setting that is not empty, in order.
pub open spec fn field_entries(fields: Seq<(Seq<char>, Seq<char>)>) -> Seq<(YamlTree, YamlTree)>
    decreases fields.len(),
{
    if fields.len() == 0 {
        Seq::empty()
    } else {
        let (key, value) = fields.first();
        (if value.len() > 0 {
            seq![(YamlTree::Str(key), YamlTree::Str(value))]
        } else {
            Seq::empty()
        }) + field_entries(fields.drop_first())
    }
}

/// A profile as a document: its name maps to its settings.
pub open spec fn profile_tree(profile: ProfileView) -> YamlTree {
    YamlTree::Hash(
        seq![(YamlTree::Str(profile.name), YamlTree::Hash(field_entries(profile.fields())))],
    )
}

/// Settings as a document. The active profile and the list of profiles are left out where they
/// are empty.
pub open spec fn config_tree(config: ConfigView) -> YamlTree {
    YamlTree::Hash(
        seq![(YamlTree::Str("mibs"@), text_list(config.mibs))] + (if config.active_profile.len()
            > 0 {
            seq![(YamlTree::Str("active_profile"@), YamlTree::Str(config.active_profile))]
        } else {
            Seq::empty()
        }) + (if config.profiles.len() > 0 {
            seq![
                (
                    YamlTree::Str("profiles"@),
                    YamlTree::Arr(config.profiles.map_values(|p: ProfileView| profile_tree(p))),
                ),
            ]
        } else {
            Seq::empty()
        }),
    )
}

/// What the settings file keeps of settings: everything but empty MIB paths.
pub open spec fn kept(config: ConfigView) -> ConfigView {
    ConfigView { mibs: config.mibs.filter(|mib: Seq<char>| mib.len() > 0), ..config }
}

/// Settings whose texts are all read back from YAML as they were written.
pub open spec fn faithful_config(config: ConfigView) -> bool {
    &&& forall|i: int| 0 <= i < config.mibs.len() ==> faithful_text(#[trigger] config.mibs[i])
    &&& faithful_text(config.active_profile)
    &&& forall|i: int|
        0 <= i < config.profiles.len() ==> faithful_profile(#[trigger] config.profiles[i])
}

/// A profile whose texts are all read back from YAML as they were written.
pub open spec fn faithful_profile(profile: ProfileView) -> bool {
    &&& faithful_key(profile.name)
    &&& forall|i: int|
        0 <= i < profile.fields().len() ==> faithful_text((#[trigger] profile.fields()[i]).1)
}

/// The entries held by `entries`.
pub open spec fn entry_trees(entries: Seq<(YamlValue, YamlValue)>) -> Seq<(YamlTree, YamlTree)> {
    entries.map_values(|entry: (YamlValue, YamlValue)| (entry.0.tree(), entry.1.tree()))
}

proof fn lemma_hash_tree(entries: Vec<(YamlValue, YamlValue)>)
    ensures
        YamlValue::Hash(entries).tree() == YamlTree::Hash(entry_trees(entries@)),
{
    assert(YamlValue::Hash(entries).tree()->Hash_0 =~= entry_trees(entries@));
}

proof fn lemma_arr_tree(items: Vec<YamlValue>)
    ensures
        YamlValue::Arr(items).tree() == YamlTree::Arr(value_trees(items@)),
{
    assert(YamlValue::Arr(items).tree()->Arr_0 =~= value_trees(items@));
}

/// The settings of a profile as a mapping.
fn write_fields(profile: &Profile) -> (r: YamlValue)
    ensures
        r.tree() == YamlTree::Hash(field_entries(profile@.fields())),
{
    let fields: Vec<(&str, &String)> = vec![
        ("host", &profile.host),
        ("version", &profile.version),
        ("community", &profile.community),
        ("security_engine_id", &profile.security_engine_id),
        ("context_engine_id", &profile.context_engine_id),
        ("security_level", &profile.security_level),
        ("auth-proto", &profile.auth_protocol),
        ("auth-key", &profile.auth_passphrase),
        ("priv-proto", &profile.privacy_protocol),
        ("priv-key", &profile.privacy_passphrase),
    ];
    let ghost texts = profile@.fields();
    assert(texts =~= fields@.map_values(|field: (&str, &String)| (field.0@, field.1@)));
    let mut props: Vec<(YamlValue, YamlValue)> = Vec::new();
    let mut i: usize = 0;
    assert(texts.skip(0) =~= texts);
    assert(entry_trees(props@) + field_entries(texts) =~= field_entries(texts));
    while i < fields.len()
        invariant
            i <= fields@.len(),
            texts.len() == fields@.len(),
            forall|j: int|
                0 <= j < texts.len() ==> #[trigger] texts[j] == (fields@[j].0@, fields@[j].1@),
            entry_trees(props@) + field_entries(texts.skip(i as int)) == field_entries(texts),
        decreases fields@.len() - i,
    {
        let ghost rest = texts.skip(i as int);
        let ghost before = entry_trees(props@);
        assert(rest.first() == texts[i as int]);
        assert(rest.drop_first() =~= texts.skip(i + 1));
        if !fields[i].1.as_str().is_empty() {
            let key = YamlValue::Str(fields[i].0.to_owned());
            let value = YamlValue::Str(fields[i].1.clone());
            props.push((key, value));
            assert(entry_trees(props@) =~= before.push((key.tree(), value.tree())));
            assert(entry_trees(props@) + field_entries(texts.skip(i + 1)) =~= before
                + field_entries(rest));
        } else {
            assert(field_entries(rest) =~= field_entries(texts.skip(i + 1)));
        }
        i += 1;
    }
    assert(field_entries(texts.skip(fields@.len() as int)) =~= Seq::empty());
    assert(entry_trees(props@) =~= field_entries(texts));
    proof {
        lemma_hash_tree(props);
    }
    YamlValue::Hash(props)
}

/// A profile as a document.
fn write_profile(profile: &Profile) -> (r: YamlValue)
    ensures
        r.tree() == profile_tree(profile@),
{
    let mut entry: Vec<(YamlValue, YamlValue)> = Vec::new();
    entry.push((YamlValue::Str(profile.name.clone()), write_fields(profile)));
    proof {
        lemma_hash_tree(entry);
        assert(entry_trees(entry@) =~= profile_tree(profile@)->Hash_0);
    }
    YamlValue::Hash(entry)
}

/// Settings as a document.
pub fn config_to_yaml(config: &Config) -> (r: YamlValue)
    ensures
        r.tree() == config_tree(config@),
{
    let mut root: Vec<(YamlValue, YamlValue)> = Vec::new();

    let mut mibs: Vec<YamlValue> = Vec::new();
    let mut i: usize = 0;
    while i < config.mibs.len()
        invariant
            i <= config.mibs@.len(),
            mibs@.len() == i,
            forall|j: int|
                0 <= j < i ==> (#[trigger] mibs@[j]).tree() == YamlTree::Str(config.mibs@[j]@),
        decreases config.mibs@.len() - i,
    {
        mibs.push(YamlValue::Str(config.mibs[i].clone()));
        i += 1;
    }
    proof {
        lemma_arr_tree(mibs);
        assert(value_trees(mibs@) =~= text_list(config@.mibs)->Arr_0);
    }
    root.push((YamlValue::Str("mibs".to_owned()), YamlValue::Arr(mibs)));

    if !config.active_profile.as_str().is_empty() {
        root.push(
            (
                YamlValue::Str("active_profile".to_owned()),
                YamlValue::Str(config.active_profile.clone()),
            ),
        );
    }
    let ghost before = entry_trees(root@);

    let mut profiles: Vec<YamlValue> = Vec::new();
    let mut k: usize = 0;
    while k < config.profiles.len()
        invariant
            k <= config.profiles@.len(),
            profiles@.len() == k,
            forall|j: int|
                0 <= j < k ==> (#[trigger] profiles@[j]).tree() == profile_tree(
                    config.profiles@[j]@,
                ),
        decreases config.profiles@.len() - k,
    {
        profiles.push(write_profile(&config.profiles[k]));
        k += 1;
    }
    if !profiles.is_empty() {
        proof {
            lemma_arr_tree(profiles);
            assert(value_trees(profiles@) =~= config@.profiles.map_values(
                |p: ProfileView| profile_tree(p),
            ));
        }
        root.push((YamlValue::Str("profiles".to_owned()), YamlValue::Arr(profiles)));
    }
    proof {
        lemma_hash_tree(root);
        assert(entry_trees(root@) =~= config_tree(config@)->Hash_0);
    }
    YamlValue::Hash(root)
}

/// The text of a settings file for `config`. Loading that text gives the settings back, but for
/// empty MIB paths, where every text among them is one that YAML gives back.
pub fn save_config(config: &Config) -> (r: String)
    ensures
        r@ == yaml_dump(config_tree(config@)),
        faithful_config(config@) ==> stored_config(Some(r@)) == kept(config@),
{
    let doc = config_to_yaml(config);
    proof {
        lemma_config_writable(config@);
        law_document_round_trip(config@);
        if faithful_config(config@) {
            lemma_config_faithful(config@);
        }
    }
    write_yaml(&doc)
}

} // verus!
