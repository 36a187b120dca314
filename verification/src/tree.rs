//! The OID tree flattened into rows, and what is shown of each row.

use mib_rs::Mib;
use vstd::prelude::*;

use crate::mib::{
    bound_texts, label_texts, load_sources, may_load, mib_tree, optional_text, read_mib, MibEntry,
    MibSource, MibTree, ObjectEntry, Status, TypeView,
};
use crate::text::{
    after_last_dot, decimal, decimal_text, join, joined, last_segment, lines_trimmed, texts, trim,
    trim_lines, trimmed,
};

verus! {

/// The properties of a node.
pub struct MibInfo {
    pub name: String,
    pub oid: String,
    pub mib_module: String,
    pub syntax: String,
    pub access: String,
    pub status: String,
    pub defval: String,
    pub indexes: String,
    pub descr: String,
}

/// The texts of a `MibInfo`.
pub struct MibInfoView {
    pub name: Seq<char>,
    pub oid: Seq<char>,
    pub mib_module: Seq<char>,
    pub syntax: Seq<char>,
    pub access: Seq<char>,
    pub status: Seq<char>,
    pub defval: Seq<char>,
    pub indexes: Seq<char>,
    pub descr: Seq<char>,
}

impl View for MibInfo {
    type V = MibInfoView;

    open spec fn view(&self) -> MibInfoView {
        MibInfoView {
            name: self.name@,
            oid: self.oid@,
            mib_module: self.mib_module@,
            syntax: self.syntax@,
            access: self.access@,
            status: self.status@,
            defval: self.defval@,
            indexes: self.indexes@,
            descr: self.descr@,
        }
    }
}

impl Clone for MibInfo {
    fn clone(&self) -> (r: Self)
        ensures
            r == *self,
    {
        MibInfo {
            name: self.name.clone(),
            oid: self.oid.clone(),
            mib_module: self.mib_module.clone(),
            syntax: self.syntax.clone(),
            access: self.access.clone(),
            status: self.status.clone(),
            defval: self.defval.clone(),
            indexes: self.indexes.clone(),
            descr: self.descr.clone(),
        }
    }
}

impl Default for MibInfo {
    fn default() -> (r: Self)
        ensures
            r@ == (MibInfoView {
                name: Seq::empty(),
                oid: Seq::empty(),
                mib_module: Seq::empty(),
                syntax: Seq::empty(),
                access: Seq::empty(),
                status: Seq::empty(),
                defval: Seq::empty(),
                indexes: Seq::empty(),
                descr: Seq::empty(),
            }),
    {
        MibInfo {
            name: String::new(),
            oid: String::new(),
            mib_module: String::new(),
            syntax: String::new(),
            access: String::new(),
            status: String::new(),
            defval: String::new(),
            indexes: String::new(),
            descr: String::new(),
        }
    }
}

/// One row of the flattened tree.
pub struct TreeItem {
    pub name: String,
    pub oid: String,
    pub indent: i32,
    pub has_children: bool,
    pub is_expanded: bool,
    pub info: MibInfo,
}

/// The contents of a `TreeItem`.
pub struct TreeItemView {
    pub name: Seq<char>,
    pub oid: Seq<char>,
    pub indent: int,
    pub has_children: bool,
    pub is_expanded: bool,
    pub info: MibInfoView,
}

impl View for TreeItem {
    type V = TreeItemView;

    open spec fn view(&self) -> TreeItemView {
        TreeItemView {
            name: self.name@,
            oid: self.oid@,
            indent: self.indent as int,
            has_children: self.has_children,
            is_expanded: self.is_expanded,
            info: self.info@,
        }
    }
}

impl Clone for TreeItem {
    fn clone(&self) -> (r: Self)
        ensures
            r == *self,
    {
        TreeItem {
            name: self.name.clone(),
            oid: self.oid.clone(),
            indent: self.indent,
            has_children: self.has_children,
            is_expanded: self.is_expanded,
            info: self.info.clone(),
        }
    }
}

/// The rows held by `items`.
pub open spec fn item_views(items: Seq<TreeItem>) -> Seq<TreeItemView> {
    items.map_values(|item: TreeItem| item@)
}

/// A row as it is shown in the tree.
pub struct MibNode {
    pub tree_name: String,
    pub name: String,
    pub oid: String,
    pub indent: i32,
    pub is_expanded: bool,
    pub has_children: bool,
}

/// The contents of a `MibNode`.
pub struct MibNodeView {
    pub tree_name: Seq<char>,
    pub name: Seq<char>,
    pub oid: Seq<char>,
    pub indent: int,
    pub is_expanded: bool,
    pub has_children: bool,
}

impl View for MibNode {
    type V = MibNodeView;

    open spec fn view(&self) -> MibNodeView {
        MibNodeView {
            tree_name: self.tree_name@,
            name: self.name@,
            oid: self.oid@,
            indent: self.indent as int,
            is_expanded: self.is_expanded,
            has_children: self.has_children,
        }
    }
}

/// How a row is shown: its name is followed by the last arc of its OID.
pub open spec fn shown(item: TreeItemView) -> MibNodeView {
    MibNodeView {
        tree_name: item.name + " ("@ + last_segment(item.oid) + ")"@,
        name: item.name,
        oid: item.oid,
        indent: item.indent,
        is_expanded: item.is_expanded,
        has_children: item.has_children,
    }
}

impl TreeItem {
    /// The row as it is shown in the tree.
    pub fn to_mib_node(&self) -> (r: MibNode)
        ensures
            r@ == shown(self@),
    {
        let oid_last_part = after_last_dot(self.oid.as_str());
        let mut tree_name = self.name.clone();
        tree_name.append(" (");
        tree_name.append(oid_last_part.as_str());
        tree_name.append(")");
        MibNode {
            tree_name,
            name: self.name.clone(),
            oid: self.oid.clone(),
            indent: self.indent,
            is_expanded: self.is_expanded,
            has_children: self.has_children,
        }
    }
}

/// An OID in dotted notation.
pub open spec fn dotted(oid: Seq<u32>) -> Seq<char> {
    joined(oid.map_values(|arc: u32| decimal(arc as int)), "."@)
}

/// The OID of a node with a leading dot.
pub open spec fn oid_text(node: MibTree) -> Seq<char> {
    "."@ + dotted(node.oid)
}

/// The name of a node; for a node without one, a dot and its last arc.
pub open spec fn display_name(node: MibTree) -> Seq<char> {
    if trimmed(node.name).len() > 0 {
        trimmed(node.name)
    } else {
        "."@ + last_segment(oid_text(node))
    }
}

/// The word for a status.
pub open spec fn status_text(status: Status) -> Seq<char> {
    match status {
        Status::Mandatory => "Mandatory"@,
        Status::Optional => "Optional"@,
        Status::Current => "Current"@,
        Status::Deprecated => "Deprecated"@,
        Status::Obsolete => "Obsolete"@,
    }
}

/// Bounds as `a..b | c..d`.
pub open spec fn bounds_text(bounds: Seq<(Seq<char>, Seq<char>)>) -> Seq<char> {
    joined(bounds.map_values(|b: (Seq<char>, Seq<char>)| b.0 + ".."@ + b.1), " | "@)
}

/// Labelled numbers as `up(1), down(2)`.
pub open spec fn labels_text(labels: Seq<(Seq<char>, i64)>) -> Seq<char> {
    joined(
        labels.map_values(|l: (Seq<char>, i64)| l.0 + "("@ + decimal(l.1 as int) + ")"@),
        ", "@,
    )
}

/// The syntax of an object with type `ty`, such as `DisplayString (OctetString) (SIZE (0..255))`.
pub open spec fn type_text(ty: TypeView, enums: Seq<(Seq<char>, i64)>) -> Seq<char> {
    (if ty.name != ty.base {
        ty.name + " ("@ + ty.base + ")"@
    } else {
        ty.name
    }) + (if ty.sizes.len() > 0 {
        " (SIZE ("@ + bounds_text(ty.sizes) + "))"@
    } else {
        Seq::empty()
    }) + (if ty.ranges.len() > 0 {
        " ("@ + bounds_text(ty.ranges) + ")"@
    } else {
        Seq::empty()
    }) + (if enums.len() > 0 {
        " {"@ + labels_text(enums) + "}"@
    } else {
        Seq::empty()
    })
}

/// The text, or an empty one where there is none.
pub open spec fn text_or_empty(text: Option<Seq<char>>) -> Seq<char> {
    match text {
        Some(s) => s,
        None => Seq::empty(),
    }
}

/// The properties of a node. An object at the node adds its own, and its description takes the
/// place of the node's.
pub open spec fn info_of(node: MibTree) -> MibInfoView {
    let plain = MibInfoView {
        name: display_name(node),
        oid: oid_text(node),
        mib_module: text_or_empty(node.module),
        syntax: Seq::empty(),
        access: Seq::empty(),
        status: Seq::empty(),
        defval: Seq::empty(),
        indexes: Seq::empty(),
        descr: node.description,
    };
    match node.object {
        Some(object) => MibInfoView {
            syntax: match object.syntax {
                Some(ty) => type_text(ty, object.enums),
                None => Seq::empty(),
            },
            access: object.access,
            status: status_text(object.status),
            defval: text_or_empty(object.default_value),
            indexes: joined(object.indexes, ", "@),
            descr: if object.description.len() > 0 {
                lines_trimmed(object.description)
            } else {
                node.description
            },
            ..plain
        },
        None => plain,
    }
}

/// The depth at which rows start out collapsed.
pub const EXPANDED_LEVELS: i32 = 3;

/// The row of a node that stands `depth` levels below the top.
pub open spec fn item_of(node: MibTree, depth: int) -> TreeItemView {
    TreeItemView {
        name: display_name(node),
        oid: oid_text(node),
        indent: depth,
        has_children: node.children.len() > 0,
        is_expanded: depth < EXPANDED_LEVELS,
        info: info_of(node),
    }
}

/// The rows of a node and everything below it, depth first.
pub open spec fn rows(node: MibTree, depth: int) -> Seq<TreeItemView>
    decreases node,
{
    seq![item_of(node, depth)] + forest_rows(node.children, depth + 1)
}

/// The rows of sibling nodes and everything below them, depth first.
pub open spec fn forest_rows(nodes: Seq<MibTree>, depth: int) -> Seq<TreeItemView>
    decreases nodes,
{
    if nodes.len() == 0 {
        Seq::empty()
    } else {
        forest_rows(nodes.drop_last(), depth) + rows(nodes.last(), depth)
    }
}

/// The rows of the whole tree, without its root.
pub open spec fn tree_rows(root: MibTree) -> Seq<TreeItemView> {
    forest_rows(root.children, 0)
}

/// The number of levels below the root that an indent can count.
pub const LEVEL_LIMIT: u32 = 0x8000_0000;

/// A tree whose depth an indent can count.
pub open spec fn countable(root: MibTree) -> bool {
    root.fits((LEVEL_LIMIT + 1) as nat)
}

/// An OID in dotted notation.
fn dotted_text(oid: &Vec<u32>) -> (r: String)
    ensures
        r@ == dotted(oid@),
{
    let mut parts: Vec<String> = Vec::new();
    let mut i: usize = 0;
    while i < oid.len()
        invariant
            i <= oid@.len(),
            parts@.len() == i,
            forall|j: int| 0 <= j < i ==> (#[trigger] parts@[j])@ == decimal(oid@[j] as int),
        decreases oid@.len() - i,
    {
        parts.push(decimal_text(oid[i] as i64));
        i += 1;
    }
    assert(texts(parts@) =~= oid@.map_values(|arc: u32| decimal(arc as int)));
    join(&parts, ".")
}

/// The word for a status.
fn status_word(status: Status) -> (r: String)
    ensures
        r@ == status_text(status),
{
    match status {
        Status::Mandatory => "Mandatory".to_owned(),
        Status::Optional => "Optional".to_owned(),
        Status::Current => "Current".to_owned(),
        Status::Deprecated => "Deprecated".to_owned(),
        Status::Obsolete => "Obsolete".to_owned(),
    }
}

/// Bounds as `a..b | c..d`.
fn write_bounds(bounds: &Vec<(String, String)>) -> (r: String)
    ensures
        r@ == bounds_text(bound_texts(bounds@)),
{
    let mut parts: Vec<String> = Vec::new();
    let mut i: usize = 0;
    while i < bounds.len()
        invariant
            i <= bounds@.len(),
            parts@.len() == i,
            forall|j: int|
                0 <= j < i ==> (#[trigger] parts@[j])@ == bounds@[j].0@ + ".."@ + bounds@[j].1@,
        decreases bounds@.len() - i,
    {
        let mut part = bounds[i].0.clone();
        part.append("..");
        part.append(bounds[i].1.as_str());
        parts.push(part);
        i += 1;
    }
    assert(texts(parts@) =~= bound_texts(bounds@).map_values(
        |b: (Seq<char>, Seq<char>)| b.0 + ".."@ + b.1,
    ));
    join(&parts, " | ")
}

/// Labelled numbers as `up(1), down(2)`.
fn write_labels(labels: &Vec<(String, i64)>) -> (r: String)
    ensures
        r@ == labels_text(label_texts(labels@)),
{
    let mut parts: Vec<String> = Vec::new();
    let mut i: usize = 0;
    while i < labels.len()
        invariant
            i <= labels@.len(),
            parts@.len() == i,
            forall|j: int|
                0 <= j < i ==> (#[trigger] parts@[j])@ == labels@[j].0@ + "("@ + decimal(
                    labels@[j].1 as int,
                ) + ")"@,
        decreases labels@.len() - i,
    {
        let mut part = labels[i].0.clone();
        part.append("(");
        part.append(decimal_text(labels[i].1).as_str());
        part.append(")");
        parts.push(part);
        i += 1;
    }
    assert(texts(parts@) =~= label_texts(labels@).map_values(
        |l: (Seq<char>, i64)| l.0 + "("@ + decimal(l.1 as int) + ")"@,
    ));
    join(&parts, ", ")
}

/// Appends `body` between `open` and `close`.
fn append_within(out: &mut String, open: &str, body: &str, close: &str)
    ensures
        final(out)@ == old(out)@ + (open@ + body@ + close@),
{
    out.append(open);
    out.append(body);
    out.append(close);
    assert(out@ =~= old(out)@ + (open@ + body@ + close@));
}

/// The syntax of an object.
fn write_syntax(object: &ObjectEntry) -> (r: String)
    ensures
        r@ == (match object@.syntax {
            Some(ty) => type_text(ty, object@.enums),
            None => Seq::empty(),
        }),
{
    match &object.syntax {
        Some(ty) => {
            let mut syntax = ty.name.clone();
            if ty.name != ty.base {
                syntax.append(" (");
                syntax.append(ty.base.as_str());
                syntax.append(")");
            }
            let ghost head = syntax@;
            if ty.sizes.len() > 0 {
                let sizes = write_bounds(&ty.sizes);
                append_within(&mut syntax, " (SIZE (", sizes.as_str(), "))");
            }
            let ghost sized = syntax@;
            if ty.ranges.len() > 0 {
                let ranges = write_bounds(&ty.ranges);
                append_within(&mut syntax, " (", ranges.as_str(), ")");
            }
            let ghost ranged = syntax@;
            if object.enums.len() > 0 {
                let labels = write_labels(&object.enums);
                append_within(&mut syntax, " {", labels.as_str(), "}");
            }
            proof {
                let none = Seq::<char>::empty();
                assert(head + none =~= head);
                assert(sized + none =~= sized);
                assert(ranged + none =~= ranged);
            }
            syntax
        },
        None => String::new(),
    }
}

/// A copy of the text, or an empty one where there is none.
fn copy_or_empty(text: &Option<String>) -> (r: String)
    ensures
        r@ == text_or_empty(optional_text(*text)),
{
    match text {
        Some(s) => s.clone(),
        None => String::new(),
    }
}

/// The row of a node that stands `depth` levels below the top.
pub fn tree_item(node: &MibEntry, depth: i32) -> (r: TreeItem)
    ensures
        r@ == item_of(node.tree(), depth as int),
{
    let mut oid_str = ".".to_owned();
    oid_str.append(dotted_text(&node.oid).as_str());

    let mut name = trim(node.name.as_str());
    if name.as_str().is_empty() {
        name = ".".to_owned();
        name.append(after_last_dot(oid_str.as_str()).as_str());
    }
    let mut info = MibInfo::default();
    info.name = name.clone();
    info.oid = oid_str.clone();
    info.mib_module = copy_or_empty(&node.module);
    info.descr = node.description.clone();

    if let Some(object) = &node.object {
        info.status = status_word(object.status);
        info.access = object.access.clone();
        if !object.description.as_str().is_empty() {
            info.descr = trim_lines(object.description.as_str());
        }
        info.syntax = write_syntax(object);
        info.indexes = join(&object.indexes, ", ");
        info.defval = copy_or_empty(&object.default_value);
    }
    TreeItem {
        name,
        oid: oid_str,
        indent: depth,
        has_children: node.children.len() > 0,
        is_expanded: depth < EXPANDED_LEVELS,
        info,
    }
}

/// Appends the rows of a node and everything below it.
pub fn walk(node: &MibEntry, depth: i32, all_items: &mut Vec<TreeItem>)
    requires
        0 <= depth,
        node.tree().fits((LEVEL_LIMIT - depth) as nat),
    ensures
        item_views(final(all_items)@) == item_views(old(all_items)@) + rows(
            node.tree(),
            depth as int,
        ),
    decreases node,
{
    let ghost start = item_views(all_items@);
    let ghost tree = node.tree();
    let item = tree_item(node, depth);
    all_items.push(item);
    assert(item_views(all_items@) =~= start.push(item@));
    let ghost head = start.push(item@);
    let mut i: usize = 0;
    assert(head + forest_rows(tree.children.take(0), depth + 1) =~= head);
    while i < node.children.len()
        invariant
            i <= node.children@.len(),
            0 <= depth,
            tree == node.tree(),
            tree.fits((LEVEL_LIMIT - depth) as nat),
            tree.children.len() == node.children@.len(),
            item_views(all_items@) == head + forest_rows(tree.children.take(i as int), depth + 1),
        decreases node.children@.len() - i,
    {
        assert(tree.children[i as int] == node.children@[i as int].tree());
        assert(tree.children.take(i + 1).drop_last() =~= tree.children.take(i as int));
        assert(tree.children[i as int].fits((LEVEL_LIMIT - depth - 1) as nat));
        walk(&node.children[i], depth + 1, all_items);
        assert(item_views(all_items@) =~= head + forest_rows(tree.children.take(i + 1), depth + 1));
        i += 1;
    }
    assert(tree.children.take(node.children@.len() as int) =~= tree.children);
    assert(item_views(all_items@) =~= start + rows(tree, depth as int));
}

/// The rows of the whole tree under `root`, without the root itself.
pub fn flatten(root: &MibEntry) -> (r: Vec<TreeItem>)
    requires
        countable(root.tree()),
    ensures
        item_views(r@) == tree_rows(root.tree()),
{
    let ghost tree = root.tree();
    let mut all_items: Vec<TreeItem> = Vec::new();
    let mut i: usize = 0;
    assert(item_views(all_items@) =~= forest_rows(tree.children.take(0), 0));
    while i < root.children.len()
        invariant
            i <= root.children@.len(),
            tree == root.tree(),
            countable(tree),
            tree.children.len() == root.children@.len(),
            item_views(all_items@) == forest_rows(tree.children.take(i as int), 0),
        decreases root.children@.len() - i,
    {
        assert(tree.children[i as int] == root.children@[i as int].tree());
        assert(tree.children.take(i + 1).drop_last() =~= tree.children.take(i as int));
        walk(&root.children[i], 0, &mut all_items);
        i += 1;
    }
    assert(tree.children.take(root.children@.len() as int) =~= tree.children);
    all_items
}

/// The rows of loaded modules. There are none where their tree is too deep for an indent to
/// count.
pub open spec fn loaded_rows(root: MibTree) -> Seq<TreeItemView> {
    if countable(root) {
        tree_rows(root)
    } else {
        Seq::empty()
    }
}

/// The rows of the OID tree of `mib`.
pub fn mib_items(mib: &Mib) -> (r: Vec<TreeItem>)
    ensures
        item_views(r@) == loaded_rows(mib_tree(*mib)),
        mib_tree(*mib).oid.len() == 0,
        mib_tree(*mib).well_placed(),
{
    let root = read_mib(mib);
    if root.fits(LEVEL_LIMIT + 1) {
        flatten(&root)
    } else {
        let r: Vec<TreeItem> = Vec::new();
        assert(item_views(r@) =~= Seq::empty());
        r
    }
}

/// The rows for what loading gave: those of the tree, and none where loading failed.
pub open spec fn outcome_rows(outcome: Option<MibTree>) -> Seq<TreeItemView> {
    match outcome {
        Some(root) => loaded_rows(root),
        None => Seq::empty(),
    }
}

/// Loads the MIB modules of `sources` and returns the rows of their OID tree, or why the modules
/// cannot be loaded.
pub fn try_build_mib_tree(sources: Vec<MibSource>) -> (r: Result<
    Vec<TreeItem>,
    mib_rs::LoadError,
>)
    ensures
        sources@.len() == 0 ==> r is Err,
        match r {
            Ok(items) => exists|root: MibTree| #[trigger]
                may_load(sources@, Some(root)) && item_views(items@) == loaded_rows(root)
                    && root.oid.len() == 0 && root.well_placed(),
            Err(_) => may_load(sources@, None),
        },
{
    match load_sources(sources) {
        Ok(mib) => Ok(mib_items(&mib)),
        Err(e) => Err(e),
    }
}

/// Loads the MIB modules of `sources` and returns the rows of their OID tree. There are none
/// where the modules cannot be loaded.
pub fn build_mib_tree(sources: Vec<MibSource>) -> (r: Vec<TreeItem>)
    ensures
        sources@.len() == 0 ==> r@.len() == 0,
        exists|outcome: Option<MibTree>| #[trigger]
            may_load(sources@, outcome) && item_views(r@) == outcome_rows(outcome) && (
            outcome matches Some(root) ==> root.oid.len() == 0 && root.well_placed()),
{
    match try_build_mib_tree(sources) {
        Ok(items) => items,
        Err(_) => {
            let r: Vec<TreeItem> = Vec::new();
            assert(item_views(r@) =~= Seq::empty());
            r
        },
    }
}

} // verus!
