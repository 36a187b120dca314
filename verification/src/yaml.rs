//! YAML documents as plain values, and their exchange with `yaml_rust2`.

use vstd::prelude::*;
use yaml_rust2::{Yaml, YamlLoader};

verus! {

/// What a YAML document says: texts, sequences and mappings in document order.
/// Every scalar that is not a text, and a missing value, is `Other`.
pub enum YamlTree {
    Str(Seq<char>),
    Arr(Seq<YamlTree>),
    Hash(Seq<(YamlTree, YamlTree)>),
    Other,
}

/// A YAML document held as plain values.
pub enum YamlValue {
    Str(String),
    Arr(Vec<YamlValue>),
    Hash(Vec<(YamlValue, YamlValue)>),
    Other,
}

impl YamlValue {
    /// The document that the value holds.
    pub open spec fn tree(self) -> YamlTree
        decreases self,
    {
        match self {
            YamlValue::Str(s) => YamlTree::Str(s@),
            YamlValue::Arr(items) => YamlTree::Arr(
                Seq::new(
                    items@.len(),
                    |i: int|
                        if 0 <= i < items@.len() {
                            items@[i].tree()
                        } else {
                            YamlTree::Other
                        },
                ),
            ),
            YamlValue::Hash(entries) => YamlTree::Hash(
                Seq::new(
                    entries@.len(),
                    |i: int|
                        if 0 <= i < entries@.len() {
                            (entries@[i].0.tree(), entries@[i].1.tree())
                        } else {
                            (YamlTree::Other, YamlTree::Other)
                        },
                ),
            ),
            YamlValue::Other => YamlTree::Other,
        }
    }
}

/// The documents that `values` hold.
pub open spec fn value_trees(values: Seq<YamlValue>) -> Seq<YamlTree> {
    values.map_values(|value: YamlValue| value.tree())
}

impl YamlTree {
    /// The keys of `entries`, in order.
    pub open spec fn keys(entries: Seq<(YamlTree, YamlTree)>) -> Seq<YamlTree> {
        entries.map_values(|entry: (YamlTree, YamlTree)| entry.0)
    }

    /// A document made of texts, sequences, and mappings whose keys are distinct texts.
    pub open spec fn writable(self) -> bool
        decreases self,
    {
        match self {
            YamlTree::Str(_) => true,
            YamlTree::Arr(items) => forall|i: int|
                0 <= i < items.len() ==> (#[trigger] items[i]).writable(),
            YamlTree::Hash(entries) => {
                &&& Self::keys(entries).no_duplicates()
                &&& forall|i: int|
                    0 <= i < entries.len() ==> (#[trigger] entries[i]).0 is Str
                        && entries[i].1.writable()
            },
            YamlTree::Other => false,
        }
    }
}

/// The number that `digits` write in `base`.
pub open spec fn numeral(digits: Seq<char>, base: nat) -> nat
    decreases digits.len(),
{
    if digits.len() == 0 {
        0
    } else {
        numeral(digits.drop_last(), base) * base + (digits.last() as nat - '0' as nat) as nat
    }
}

/// An optional sign and at least one digit of `base`, for a number of 64 bits.
pub open spec fn signed_number(s: Seq<char>, base: nat) -> bool {
    let negative = s.len() > 0 && s[0] == '-';
    let body = if negative || (s.len() > 0 && s[0] == '+') {
        s.skip(1)
    } else {
        s
    };
    &&& body.len() > 0
    &&& forall|i: int|
        0 <= i < body.len() ==> '0' <= #[trigger] body[i] && (body[i] as nat) < ('0' as nat) + base
    &&& numeral(body, base) < 0x8000_0000_0000_0000 || (negative && numeral(body, base)
        == 0x8000_0000_0000_0000)
}

/// A text that is written without quotes although it reads as a number: an octal number
/// (`0o17`), a number with two signs (`+-5`), or a positive infinity (`+.inf`).
pub open spec fn reads_as_number(s: Seq<char>) -> bool {
    ||| s.len() > 2 && s[0] == '0' && s[1] == 'o' && signed_number(s.skip(2), 8)
    ||| s.len() > 2 && s[0] == '+' && (s[1] == '+' || s[1] == '-') && signed_number(s.skip(1), 10)
    ||| s == seq!['+', '.', 'i', 'n', 'f']
    ||| s == seq!['+', '.', 'I', 'n', 'f']
    ||| s == seq!['+', '.', 'I', 'N', 'F']
}

/// The number of characters that `c` takes inside double quotes.
pub open spec fn quoted_width(c: char) -> nat {
    if c == '"' || c == '\\' || c == '\u{8}' || c == '\t' || c == '\n' || c == '\u{c}' || c == '\r' {
        2
    } else if c < ' ' || c == '\u{7f}' {
        6
    } else {
        1
    }
}

/// The number of characters that `s` takes between double quotes, quotes included.
pub open spec fn quoted_len(s: Seq<char>) -> nat
    decreases s.len(),
{
    if s.len() == 0 {
        2
    } else {
        quoted_len(s.drop_last()) + quoted_width(s.last())
    }
}

/// The longest mapping key that a reader accepts on one line.
pub const KEY_LIMIT: usize = 1024;

/// A text that is read back as it was written.
pub open spec fn faithful_text(s: Seq<char>) -> bool {
    !reads_as_number(s)
}

/// The number of characters that are written for `s`: a document that is the text `s` alone has
/// them behind a line of four.
pub open spec fn written_len(s: Seq<char>) -> int {
    yaml_dump(YamlTree::Str(s)).len() - 4
}

/// A mapping key that is read back as it was written. No text is written longer than between
/// double quotes.
pub open spec fn faithful_key(s: Seq<char>) -> bool {
    faithful_text(s) && (quoted_len(s) <= KEY_LIMIT || written_len(s) <= KEY_LIMIT)
}

impl YamlTree {
    /// A document that is read back as it was written.
    pub open spec fn faithful(self) -> bool
        decreases self,
    {
        match self {
            YamlTree::Str(s) => faithful_text(s),
            YamlTree::Arr(items) => forall|i: int|
                0 <= i < items.len() ==> (#[trigger] items[i]).faithful(),
            YamlTree::Hash(entries) => {
                &&& Self::keys(entries).no_duplicates()
                &&& forall|i: int|
                    0 <= i < entries.len() ==> (#[trigger] entries[i]).0 is Str && faithful_key(
                        entries[i].0->Str_0,
                    ) && entries[i].1.faithful()
            },
            YamlTree::Other => false,
        }
    }
}

/// `yaml_rust2::Yaml`, one node of a parsed document.
#[verifier::external_type_specification]
#[verifier::external_body]
pub struct ExYaml(yaml_rust2::Yaml);

/// `yaml_rust2::ScanError`, why a text is no YAML.
#[verifier::external_type_specification]
#[verifier::external_body]
pub struct ExScanError(yaml_rust2::ScanError);

/// A mapping under construction: the insertion-ordered map of `yaml_rust2`.
#[verifier::external_body]
pub struct YamlHash {
    entries: yaml_rust2::yaml::Hash,
}

/// What a node of `yaml_rust2` holds.
pub uninterp spec fn yaml_tree(value: yaml_rust2::Yaml) -> YamlTree;

/// What a mapping under construction holds, in insertion order.
pub uninterp spec fn hash_entries(hash: YamlHash) -> Seq<(YamlTree, YamlTree)>;

/// The documents that `yaml_rust2` reads from a text, or `None` where the text is no YAML.
pub uninterp spec fn yaml_load(text: Seq<char>) -> Option<Seq<YamlTree>>;

/// The text that `yaml_rust2` writes for a document.
pub uninterp spec fn yaml_dump(tree: YamlTree) -> Seq<char>;

/// What the nodes `docs` hold.
pub open spec fn doc_trees(docs: Seq<Yaml>) -> Seq<YamlTree> {
    docs.map_values(|doc: Yaml| yaml_tree(doc))
}

/// `YamlLoader::load_from_str`: reads the documents of a text, which decides the outcome alone.
pub assume_specification[ YamlLoader::load_from_str ](source: &str) -> (r: Result<
    Vec<Yaml>,
    yaml_rust2::ScanError,
>)
    ensures
        match r {
            Ok(docs) => yaml_load(source@) == Some(doc_trees(docs@)),
            Err(_) => yaml_load(source@) is None,
        },
;

/// `Yaml::as_str`: the text of a text node; nothing for any other node.
pub assume_specification<'a>[ Yaml::as_str ](value: &'a Yaml) -> (r: Option<&'a str>)
    ensures
        match r {
            Some(s) => yaml_tree(*value) == YamlTree::Str(s@),
            None => !(yaml_tree(*value) is Str),
        },
;

/// `Yaml::as_vec`: the items of a sequence node; nothing for any other node.
pub assume_specification<'a>[ Yaml::as_vec ](value: &'a Yaml) -> (r: Option<&'a Vec<Yaml>>)
    ensures
        match r {
            Some(items) => yaml_tree(*value) == YamlTree::Arr(doc_trees(items@)),
            None => !(yaml_tree(*value) is Arr),
        },
;

/// `Yaml::as_hash`: the entries of a mapping node in document order; nothing for any other node.
#[verifier::external_body]
fn hash_items<'a>(value: &'a Yaml) -> (r: Option<Vec<(&'a Yaml, &'a Yaml)>>)
    ensures
        match r {
            Some(items) => yaml_tree(*value) == YamlTree::Hash(
                items@.map_values(|item: (&Yaml, &Yaml)| (yaml_tree(*item.0), yaml_tree(*item.1))),
            ),
            None => !(yaml_tree(*value) is Hash),
        },
{
    value.as_hash().map(|hash| hash.iter().collect())
}

/// `Yaml::String`: a text node.
#[verifier::external_body]
fn string_node(s: String) -> (r: Yaml)
    ensures
        yaml_tree(r) == YamlTree::Str(s@),
{
    Yaml::String(s)
}

/// `Yaml::Array`: a sequence node.
#[verifier::external_body]
fn array_node(items: Vec<Yaml>) -> (r: Yaml)
    ensures
        yaml_tree(r) == YamlTree::Arr(doc_trees(items@)),
{
    Yaml::Array(items)
}

/// `Yaml::Hash`: a mapping node.
#[verifier::external_body]
fn hash_node(hash: YamlHash) -> (r: Yaml)
    ensures
        yaml_tree(r) == YamlTree::Hash(hash_entries(hash)),
{
    Yaml::Hash(hash.entries)
}

/// `Hash::new`: a mapping without entries.
#[verifier::external_body]
fn hash_new() -> (r: YamlHash)
    ensures
        hash_entries(r) == Seq::<(YamlTree, YamlTree)>::empty(),
{
    YamlHash { entries: yaml_rust2::yaml::Hash::new() }
}

/// `Hash::insert`: an entry under a text that is no key yet comes last.
#[verifier::external_body]
fn hash_insert(hash: &mut YamlHash, key: Yaml, value: Yaml)
    requires
        yaml_tree(key) is Str,
        !YamlTree::keys(hash_entries(*old(hash))).contains(yaml_tree(key)),
    ensures
        hash_entries(*final(hash)) == hash_entries(*old(hash)).push(
            (yaml_tree(key), yaml_tree(value)),
        ),
{
    hash.entries.insert(key, value);
}

/// `YamlEmitter::dump`: the text of a document, which alone decides it. A document that
/// `YamlTree::faithful` admits is what `YamlLoader::load_from_str` reads from that text.
#[verifier::external_body]
fn dump_node(value: &Yaml) -> (r: String)
    requires
        yaml_tree(*value).writable(),
    ensures
        r@ == yaml_dump(yaml_tree(*value)),
        yaml_tree(*value).faithful() ==> yaml_load(r@) == Some(seq![yaml_tree(*value)]),
{
    let mut out = String::new();
    yaml_rust2::YamlEmitter::new(&mut out).dump(value).unwrap();
    out
}

/// The plain value of a node.
fn from_node(node: &Yaml) -> (r: YamlValue)
    ensures
        r.tree() == yaml_tree(*node),
    decreases yaml_tree(*node),
{
    let ghost tree = yaml_tree(*node);
    if let Some(s) = node.as_str() {
        return YamlValue::Str(s.to_owned());
    }
    if let Some(items) = node.as_vec() {
        let mut values: Vec<YamlValue> = Vec::new();
        let mut i: usize = 0;
        while i < items.len()
            invariant
                i <= items@.len(),
                tree == yaml_tree(*node),
                tree == YamlTree::Arr(doc_trees(items@)),
                values@.len() == i,
                forall|j: int|
                    0 <= j < i ==> (#[trigger] values@[j]).tree() == yaml_tree(items@[j]),
            decreases items@.len() - i,
        {
            assert(decreases_to!(tree => tree->Arr_0));
            assert(tree->Arr_0[i as int] == yaml_tree(items@[i as int]));
            assert(decreases_to!(tree->Arr_0 => tree->Arr_0[i as int]));
            values.push(from_node(&items[i]));
            i += 1;
        }
        let r = YamlValue::Arr(values);
        assert(r.tree()->Arr_0 =~= tree->Arr_0);
        return r;
    }
    if let Some(items) = hash_items(node) {
        let ghost entries = tree->Hash_0;
        let mut values: Vec<(YamlValue, YamlValue)> = Vec::new();
        let mut i: usize = 0;
        while i < items.len()
            invariant
                i <= items@.len(),
                tree == yaml_tree(*node),
                tree == YamlTree::Hash(entries),
                entries.len() == items@.len(),
                forall|j: int|
                    0 <= j < items@.len() ==> #[trigger] entries[j] == (
                        yaml_tree(*items@[j].0),
                        yaml_tree(*items@[j].1),
                    ),
                values@.len() == i,
                forall|j: int|
                    0 <= j < i ==> ((#[trigger] values@[j]).0.tree(), values@[j].1.tree())
                        == entries[j],
            decreases items@.len() - i,
        {
            assert(decreases_to!(tree => tree->Hash_0));
            assert(decreases_to!(entries => entries[i as int]));
            assert(decreases_to!(entries[i as int] => entries[i as int].0));
            assert(decreases_to!(entries[i as int] => entries[i as int].1));
            let key = from_node(items[i].0);
            let value = from_node(items[i].1);
            values.push((key, value));
            i += 1;
        }
        let r = YamlValue::Hash(values);
        assert(r.tree()->Hash_0 =~= entries);
        return r;
    }
    YamlValue::Other
}

/// The node for a plain value.
fn to_node(value: &YamlValue) -> (r: Yaml)
    requires
        value.tree().writable(),
    ensures
        yaml_tree(r) == value.tree(),
    decreases value,
{
    let ghost tree = value.tree();
    match value {
        YamlValue::Str(s) => string_node(s.clone()),
        YamlValue::Arr(items) => {
            let mut nodes: Vec<Yaml> = Vec::new();
            let mut i: usize = 0;
            while i < items.len()
                invariant
                    i <= items@.len(),
                    value == YamlValue::Arr(*items),
                    tree == value.tree(),
                    tree.writable(),
                    nodes@.len() == i,
                    forall|j: int|
                        0 <= j < i ==> yaml_tree(#[trigger] nodes@[j]) == items@[j].tree(),
                decreases items@.len() - i,
            {
                assert(tree->Arr_0[i as int] == items@[i as int].tree());
                nodes.push(to_node(&items[i]));
                i += 1;
            }
            assert(doc_trees(nodes@) =~= tree->Arr_0);
            array_node(nodes)
        },
        YamlValue::Hash(entries) => {
            let mut hash = hash_new();
            let mut i: usize = 0;
            while i < entries.len()
                invariant
                    i <= entries@.len(),
                    value == YamlValue::Hash(*entries),
                    tree == value.tree(),
                    tree is Hash,
                    tree.writable(),
                    tree->Hash_0.len() == entries@.len(),
                    hash_entries(hash) == tree->Hash_0.take(i as int),
                decreases entries@.len() - i,
            {
                let ghost all = tree->Hash_0;
                assert(all[i as int] == (entries@[i as int].0.tree(), entries@[i as int].1.tree()));
                let key = to_node(&entries[i].0);
                let node = to_node(&entries[i].1);
                proof {
                    let known = YamlTree::keys(all.take(i as int));
                    if known.contains(yaml_tree(key)) {
                        let j = choose|j: int| 0 <= j < known.len() && known[j] == yaml_tree(key);
                        assert(YamlTree::keys(all)[j] == YamlTree::keys(all)[i as int]);
                    }
                }
                hash_insert(&mut hash, key, node);
                assert(all.take(i + 1) =~= all.take(i as int).push(all[i as int]));
                i += 1;
            }
            assert(tree->Hash_0.take(entries@.len() as int) =~= tree->Hash_0);
            hash_node(hash)
        },
        YamlValue::Other => string_node(String::new()),
    }
}

/// The documents of a text, or why the text is no YAML.
pub fn parse_yaml(text: &str) -> (r: Result<Vec<YamlValue>, yaml_rust2::ScanError>)
    ensures
        match r {
            Ok(docs) => yaml_load(text@) == Some(value_trees(docs@)),
            Err(_) => yaml_load(text@) is None,
        },
{
    match YamlLoader::load_from_str(text) {
        Ok(nodes) => {
            let mut docs: Vec<YamlValue> = Vec::new();
            let mut i: usize = 0;
            while i < nodes.len()
                invariant
                    i <= nodes@.len(),
                    docs@.len() == i,
                    forall|j: int|
                        0 <= j < i ==> (#[trigger] docs@[j]).tree() == yaml_tree(nodes@[j]),
                decreases nodes@.len() - i,
            {
                docs.push(from_node(&nodes[i]));
                i += 1;
            }
            assert(value_trees(docs@) =~= doc_trees(nodes@));
            Ok(docs)
        },
        Err(e) => Err(e),
    }
}

/// The text of a document.
pub fn write_yaml(value: &YamlValue) -> (r: String)
    requires
        value.tree().writable(),
    ensures
        r@ == yaml_dump(value.tree()),
        value.tree().faithful() ==> yaml_load(r@) == Some(seq![value.tree()]),
{
    let node = to_node(value);
    dump_node(&node)
}

} // verus!
