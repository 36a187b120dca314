//! The OID tree of a set of MIB modules as plain values, read through `mib_rs`.

use mib_rs::{Mib, Node, Object, Type};
use vstd::prelude::*;

use crate::text::texts;

verus! {

/// How far a definition may still be relied on.
#[derive(Clone, Copy, Debug, PartialEq, Eq, Structural)]
pub enum Status {
    Current,
    Deprecated,
    Obsolete,
    Mandatory,
    Optional,
}

/// The contents of a `TypeEntry`.
pub struct TypeView {
    pub name: Seq<char>,
    pub base: Seq<char>,
    pub sizes: Seq<(Seq<char>, Seq<char>)>,
    pub ranges: Seq<(Seq<char>, Seq<char>)>,
}

/// The contents of an `ObjectEntry`.
pub struct ObjectView {
    pub status: Status,
    pub access: Seq<char>,
    pub description: Seq<char>,
    pub syntax: Option<TypeView>,
    pub enums: Seq<(Seq<char>, i64)>,
    pub indexes: Seq<Seq<char>>,
    pub default_value: Option<Seq<char>>,
}

/// A node of the OID tree with everything below it.
pub struct MibTree {
    pub oid: Seq<u32>,
    pub name: Seq<char>,
    pub module: Option<Seq<char>>,
    pub description: Seq<char>,
    pub object: Option<ObjectView>,
    pub children: Seq<MibTree>,
}

impl MibTree {
    /// No branch holds more than `levels` nodes, this one included.
    pub open spec fn fits(self, levels: nat) -> bool
        decreases self,
    {
        &&& levels > 0
        &&& forall|i: int|
            0 <= i < self.children.len() ==> (#[trigger] self.children[i]).fits((levels - 1) as nat)
    }

    /// Every node below stands one arc below its parent, after the siblings with smaller arcs.
    pub open spec fn well_placed(self) -> bool
        decreases self,
    {
        &&& forall|i: int|
            0 <= i < self.children.len() ==> {
                let child = #[trigger] self.children[i];
                &&& child.oid.len() == self.oid.len() + 1
                &&& child.oid.drop_last() == self.oid
                &&& child.well_placed()
            }
        &&& forall|i: int, j: int|
            0 <= i < j < self.children.len() ==> (#[trigger] self.children[i]).oid.last() < (
            #[trigger] self.children[j]).oid.last()
    }
}

/// The syntax of an object: its type, the type under it, and the bounds of its sizes and values.
pub struct TypeEntry {
    pub name: String,
    pub base: String,
    pub sizes: Vec<(String, String)>,
    pub ranges: Vec<(String, String)>,
}

/// The texts of pairs of bounds.
pub open spec fn bound_texts(bounds: Seq<(String, String)>) -> Seq<(Seq<char>, Seq<char>)> {
    bounds.map_values(|bound: (String, String)| (bound.0@, bound.1@))
}

/// The texts of labelled numbers.
pub open spec fn label_texts(labels: Seq<(String, i64)>) -> Seq<(Seq<char>, i64)> {
    labels.map_values(|label: (String, i64)| (label.0@, label.1))
}

/// The text of an optional string.
pub open spec fn optional_text(text: Option<String>) -> Option<Seq<char>> {
    match text {
        Some(s) => Some(s@),
        None => None,
    }
}

impl View for TypeEntry {
    type V = TypeView;

    open spec fn view(&self) -> TypeView {
        TypeView {
            name: self.name@,
            base: self.base@,
            sizes: bound_texts(self.sizes@),
            ranges: bound_texts(self.ranges@),
        }
    }
}

/// The definition of an object at a node.
pub struct ObjectEntry {
    pub status: Status,
    pub access: String,
    pub description: String,
    pub syntax: Option<TypeEntry>,
    pub enums: Vec<(String, i64)>,
    pub indexes: Vec<String>,
    pub default_value: Option<String>,
}

impl View for ObjectEntry {
    type V = ObjectView;

    open spec fn view(&self) -> ObjectView {
        ObjectView {
            status: self.status,
            access: self.access@,
            description: self.description@,
            syntax: match self.syntax {
                Some(syntax) => Some(syntax@),
                None => None,
            },
            enums: label_texts(self.enums@),
            indexes: texts(self.indexes@),
            default_value: optional_text(self.default_value),
        }
    }
}

/// A node of the OID tree with everything below it, held as plain values.
pub struct MibEntry {
    pub oid: Vec<u32>,
    pub name: String,
    pub module: Option<String>,
    pub description: String,
    pub object: Option<ObjectEntry>,
    pub children: Vec<MibEntry>,
}

impl MibEntry {
    /// The part of the OID tree that the entry holds.
    pub open spec fn tree(self) -> MibTree
        decreases self,
    {
        MibTree {
            oid: self.oid@,
            name: self.name@,
            module: optional_text(self.module),
            description: self.description@,
            object: match self.object {
                Some(object) => Some(object@),
                None => None,
            },
            children: Seq::new(
                self.children@.len(),
                |i: int|
                    if 0 <= i < self.children@.len() {
                        self.children@[i].tree()
                    } else {
                        arbitrary()
                    },
            ),
        }
    }

    /// Tells whether no branch holds more than `levels` nodes.
    pub fn fits(&self, levels: u32) -> (r: bool)
        ensures
            r == self.tree().fits(levels as nat),
        decreases self,
    {
        if levels == 0 {
            return false;
        }
        let mut i: usize = 0;
        while i < self.children.len()
            invariant
                levels > 0,
                i <= self.children@.len(),
                self.tree().children.len() == self.children@.len(),
                forall|j: int|
                    0 <= j < i ==> (#[trigger] self.tree().children[j]).fits((levels - 1) as nat),
            decreases self.children@.len() - i,
        {
            assert(self.tree().children[i as int] == self.children@[i as int].tree());
            if !self.children[i].fits(levels - 1) {
                return false;
            }
            i += 1;
        }
        true
    }
}

/// A collection of MIB modules that `mib_rs` can read, such as the contents of a file.
#[verifier::external_body]
pub struct MibSource {
    pub source: Box<dyn mib_rs::source::Source>,
}

/// `mib_rs::Mib`, the modules that were loaded together.
#[verifier::external_type_specification]
#[verifier::external_body]
pub struct ExMib(mib_rs::Mib);

/// `mib_rs::LoadError`, why modules could not be loaded.
#[verifier::external_type_specification]
#[verifier::external_body]
pub struct ExLoadError(mib_rs::LoadError);

/// `mib_rs::Node`, a node of the OID tree.
#[verifier::external_type_specification]
#[verifier::external_body]
pub struct ExNode<'a>(mib_rs::Node<'a>);

/// `mib_rs::Object`, the object defined at a node.
#[verifier::external_type_specification]
#[verifier::external_body]
pub struct ExObject<'a>(mib_rs::Object<'a>);

/// `mib_rs::Type`, the type of an object.
#[verifier::external_type_specification]
#[verifier::external_body]
pub struct ExType<'a>(mib_rs::Type<'a>);

/// The OID tree of loaded modules, from its nameless root.
pub uninterp spec fn mib_tree(mib: mib_rs::Mib) -> MibTree;

/// The part of the OID tree at and below a node.
pub uninterp spec fn node_tree(node: mib_rs::Node<'_>) -> MibTree;

/// What is known of an object.
pub uninterp spec fn object_view(object: mib_rs::Object<'_>) -> ObjectView;

/// What is known of a type.
pub uninterp spec fn type_view(ty: mib_rs::Type<'_>) -> TypeView;

/// `Loader::load` may make this of the given sources: `Some` of the OID tree of their modules, or
/// `None` where it refuses them. More than one outcome may be possible for the same sources, for
/// its threads number the sources as they come to them, and default values show these numbers.
pub uninterp spec fn may_load(sources: Seq<MibSource>, outcome: Option<MibTree>) -> bool;

/// `Loader::load`, on a loader from `Loader::new` and `Loader::sources` with the given sources
/// and nothing else set: it makes of them what it may make of them. Without a source it fails.
/// Which sources it refuses, and what the tree of the others holds, is left open.
#[verifier::external_body]
pub(crate) fn load_sources(sources: Vec<MibSource>) -> (r: Result<Mib, mib_rs::LoadError>)
    ensures
        match r {
            Ok(mib) => may_load(sources@, Some(mib_tree(mib))),
            Err(_) => may_load(sources@, None),
        },
        sources@.len() == 0 ==> r is Err,
{
    let sources = sources.into_iter().map(|source| source.source).collect();
    mib_rs::Loader::new().sources(sources).load()
}

/// `Mib::root_node`: the root of the OID tree, which has no arcs. Below it every node stands one
/// arc below its parent, and siblings come in the order of their arcs.
pub assume_specification[ Mib::root_node ](mib: &Mib) -> (r: Node<'_>)
    ensures
        node_tree(r) == mib_tree(*mib),
        node_tree(r).oid.len() == 0,
        node_tree(r).well_placed(),
;

/// `Node::children`: the nodes directly below.
#[verifier::external_body]
fn node_children<'a>(node: Node<'a>) -> (r: Vec<Node<'a>>)
    ensures
        node_tree(node).children == r@.map_values(|child: Node<'a>| node_tree(child)),
{
    node.children().collect()
}

/// `Node::oid`: the arcs from the root to the node.
#[verifier::external_body]
fn node_oid(node: Node<'_>) -> (r: Vec<u32>)
    ensures
        r@ == node_tree(node).oid,
{
    node.oid().to_vec()
}

/// `Node::name`: the name of the node; empty where it has none.
pub assume_specification<'a>[ Node::<'a>::name ](node: Node<'a>) -> (r: &'a str)
    ensures
        r@ == node_tree(node).name,
;

/// `Node::description`: the description of the node; empty where it has none.
pub assume_specification<'a>[ Node::<'a>::description ](node: Node<'a>) -> (r: &'a str)
    ensures
        r@ == node_tree(node).description,
;

/// `Node::module`: the name of the module that the node belongs to.
#[verifier::external_body]
fn node_module(node: Node<'_>) -> (r: Option<String>)
    ensures
        optional_text(r) == node_tree(node).module,
{
    node.module().map(|module| module.name().to_string())
}

/// `Node::object`: the object defined at the node.
pub assume_specification<'a>[ Node::<'a>::object ](node: Node<'a>) -> (r: Option<Object<'a>>)
    ensures
        match r {
            Some(object) => node_tree(node).object == Some(object_view(object)),
            None => node_tree(node).object is None,
        },
;

/// `Object::status`: the status of the object.
#[verifier::external_body]
fn object_status(object: Object<'_>) -> (r: Status)
    ensures
        r == object_view(object).status,
{
    match object.status() {
        mib_rs::Status::Current => Status::Current,
        mib_rs::Status::Deprecated => Status::Deprecated,
        mib_rs::Status::Obsolete => Status::Obsolete,
        mib_rs::Status::Mandatory => Status::Mandatory,
        mib_rs::Status::Optional => Status::Optional,
    }
}

/// `Object::access`: the access to the object, in its `Debug` form.
#[verifier::external_body]
fn object_access(object: Object<'_>) -> (r: String)
    ensures
        r@ == object_view(object).access,
{
    format!("{:?}", object.access())
}

/// `Object::description`: the description of the object; empty where it has none.
pub assume_specification<'a>[ Object::<'a>::description ](object: Object<'a>) -> (r: &'a str)
    ensures
        r@ == object_view(object).description,
;

/// `Object::ty`: the type of the object.
pub assume_specification<'a>[ Object::<'a>::ty ](object: Object<'a>) -> (r: Option<Type<'a>>)
    ensures
        match r {
            Some(ty) => object_view(object).syntax == Some(type_view(ty)),
            None => object_view(object).syntax is None,
        },
;

/// `Object::effective_enums`: the labels of the object's values.
#[verifier::external_body]
fn object_enums(object: Object<'_>) -> (r: Vec<(String, i64)>)
    ensures
        label_texts(r@) == object_view(object).enums,
{
    object.effective_enums().iter().map(|label| (label.label.clone(), label.value)).collect()
}

/// `Object::effective_indexes`: the names of the object's indexes.
#[verifier::external_body]
fn object_indexes(object: Object<'_>) -> (r: Vec<String>)
    ensures
        texts(r@) == object_view(object).indexes,
{
    object.effective_indexes().map(|index| index.name().to_string()).collect()
}

/// `Object::default_value`: the default value of the object, in its `Debug` form.
#[verifier::external_body]
fn object_default(object: Object<'_>) -> (r: Option<String>)
    ensures
        optional_text(r) == object_view(object).default_value,
{
    object.default_value().map(|value| format!("{:?}", value))
}

/// `Type::name`: the name of the type.
pub assume_specification<'a>[ Type::<'a>::name ](ty: Type<'a>) -> (r: &'a str)
    ensures
        r@ == type_view(ty).name,
;

/// `Type::effective_base`: the type under the type, in its `Debug` form.
#[verifier::external_body]
fn type_base(ty: Type<'_>) -> (r: String)
    ensures
        r@ == type_view(ty).base,
{
    format!("{:?}", ty.effective_base())
}

/// `Type::effective_sizes`: the bounds of the sizes, in their `Display` form.
#[verifier::external_body]
fn type_sizes(ty: Type<'_>) -> (r: Vec<(String, String)>)
    ensures
        bound_texts(r@) == type_view(ty).sizes,
{
    ty.effective_sizes().iter().map(|r| (r.min.to_string(), r.max.to_string())).collect()
}

/// `Type::effective_ranges`: the bounds of the values, in their `Display` form.
#[verifier::external_body]
fn type_ranges(ty: Type<'_>) -> (r: Vec<(String, String)>)
    ensures
        bound_texts(r@) == type_view(ty).ranges,
{
    ty.effective_ranges().iter().map(|r| (r.min.to_string(), r.max.to_string())).collect()
}

/// The plain values of a type.
fn read_type(ty: Type<'_>) -> (r: TypeEntry)
    ensures
        r@ == type_view(ty),
{
    TypeEntry {
        name: ty.name().to_owned(),
        base: type_base(ty),
        sizes: type_sizes(ty),
        ranges: type_ranges(ty),
    }
}

/// The plain values of an object.
fn read_object(object: Object<'_>) -> (r: ObjectEntry)
    ensures
        r@ == object_view(object),
{
    ObjectEntry {
        status: object_status(object),
        access: object_access(object),
        description: object.description().to_owned(),
        syntax: match object.ty() {
            Some(ty) => Some(read_type(ty)),
            None => None,
        },
        enums: object_enums(object),
        indexes: object_indexes(object),
        default_value: object_default(object),
    }
}

/// The plain values of a node and everything below it.
fn read_node(node: Node<'_>) -> (r: MibEntry)
    ensures
        r.tree() == node_tree(node),
    decreases node_tree(node),
{
    let ghost tree = node_tree(node);
    let object = match node.object() {
        Some(object) => Some(read_object(object)),
        None => None,
    };
    let nodes = node_children(node);
    let mut children: Vec<MibEntry> = Vec::new();
    let mut i: usize = 0;
    while i < nodes.len()
        invariant
            i <= nodes@.len(),
            tree == node_tree(node),
            tree.children.len() == nodes@.len(),
            forall|j: int|
                0 <= j < nodes@.len() ==> #[trigger] tree.children[j] == node_tree(nodes@[j]),
            children@.len() == i,
            forall|j: int| 0 <= j < i ==> (#[trigger] children@[j]).tree() == tree.children[j],
        decreases nodes@.len() - i,
    {
        assert(decreases_to!(tree => tree.children));
        assert(decreases_to!(tree.children => tree.children[i as int]));
        children.push(read_node(nodes[i]));
        i += 1;
    }
    let r = MibEntry {
        oid: node_oid(node),
        name: node.name().to_owned(),
        module: node_module(node),
        description: node.description().to_owned(),
        object,
        children,
    };
    assert(r.tree().children =~= tree.children);
    r
}

/// The OID tree of loaded modules.
pub fn read_mib(mib: &Mib) -> (r: MibEntry)
    ensures
        r.tree() == mib_tree(*mib),
        r.tree().oid.len() == 0,
        r.tree().well_placed(),
{
    read_node(mib.root_node())
}

} // verus!
