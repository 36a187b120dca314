//! What holds of the rows of a tree.

use vstd::prelude::*;

use crate::mib::{MibEntry, MibTree, ObjectEntry, Status, TypeEntry, TypeView};
use crate::text::{decimal, joined, last_segment, lines_trimmed, split, trimmed};
use crate::text_laws::{
    free_of, law_digits_are_digits, law_digits_are_unique, law_joined, law_last_segment,
    law_split_undoes_join,
};
use crate::tree::{
    bounds_text, countable, display_name, dotted, forest_rows, info_of, item_of, item_views,
    labels_text, loaded_rows, oid_text, outcome_rows, rows, shown, status_text, tree_rows,
    type_text, MibInfo, MibNode, TreeItem, TreeItemView, EXPANDED_LEVELS, LEVEL_LIMIT,
};
use crate::visible::{below, collapsed, hidden, toggled};

verus! {

/// A row is followed by its first child, one level deeper, or, without children, by a row that
/// is not deeper, or by nothing.
pub open spec fn followed_well(items: Seq<TreeItemView>, i: int) -> bool {
    if items[i].has_children {
        i + 1 < items.len() && items[i + 1].indent == items[i].indent + 1
    } else {
        i + 1 < items.len() ==> items[i + 1].indent <= items[i].indent
    }
}

/// Rows that list a forest depth first, with its top at indent `top`.
pub open spec fn well_nested(items: Seq<TreeItemView>, top: int) -> bool {
    &&& items.len() > 0 ==> items[0].indent == top
    &&& forall|i: int| 0 <= i < items.len() ==> (#[trigger] items[i]).indent >= top
    &&& forall|i: int| 0 <= i < items.len() ==> #[trigger] followed_well(items, i)
}

/// Rows that are expanded exactly on the first levels.
pub open spec fn freshly_expanded(items: Seq<TreeItemView>) -> bool {
    forall|i: int|
        0 <= i < items.len() ==> ((#[trigger] items[i]).is_expanded <==> items[i].indent
            < EXPANDED_LEVELS)
}

proof fn lemma_rows_nest(node: MibTree, depth: int)
    ensures
        rows(node, depth).len() > 0,
        well_nested(rows(node, depth), depth),
        freshly_expanded(rows(node, depth)),
    decreases node,
{
    let items = rows(node, depth);
    let rest = forest_rows(node.children, depth + 1);
    lemma_forest_nests(node.children, depth + 1);
    assert(forall|i: int| 1 <= i < items.len() ==> #[trigger] items[i] == rest[i - 1]);
    assert forall|i: int| 0 <= i < items.len() implies #[trigger] followed_well(items, i) by {
        if i > 0 {
            assert(followed_well(rest, i - 1));
        }
    }
}

proof fn lemma_forest_nests(nodes: Seq<MibTree>, depth: int)
    ensures
        nodes.len() > 0 <==> forest_rows(nodes, depth).len() > 0,
        well_nested(forest_rows(nodes, depth), depth),
        freshly_expanded(forest_rows(nodes, depth)),
    decreases nodes,
{
    if nodes.len() > 0 {
        let items = forest_rows(nodes, depth);
        let start = forest_rows(nodes.drop_last(), depth);
        let end = rows(nodes.last(), depth);
        lemma_forest_nests(nodes.drop_last(), depth);
        lemma_rows_nest(nodes.last(), depth);
        assert(forall|i: int| 0 <= i < start.len() ==> #[trigger] items[i] == start[i]);
        assert(forall|i: int|
            start.len() <= i < items.len() ==> #[trigger] items[i] == end[i - start.len()]);
        assert forall|i: int| 0 <= i < items.len() implies #[trigger] followed_well(items, i) by {
            if i < start.len() {
                assert(followed_well(start, i));
            } else {
                assert(followed_well(end, i - start.len()));
            }
        }
    }
}

/// The rows of a tree are listed depth first: the top rows have indent 0, a row with children is
/// followed by its first child, and a row without children by no deeper row.
pub proof fn law_rows_nest(root: MibTree)
    ensures
        well_nested(tree_rows(root), 0),
        freshly_expanded(tree_rows(root)),
{
    lemma_forest_nests(root.children, 0);
}

/// Above every row that is deeper than `level` stands a row of that level.
pub proof fn law_rows_have_ancestors(items: Seq<TreeItemView>, top: int, i: int, level: int)
    requires
        well_nested(items, top),
        0 <= i < items.len(),
        top <= level < items[i].indent,
    ensures
        exists|j: int|
            0 <= j < i && items[j].indent == level && items[j].has_children && #[trigger] below(
                items,
                j,
                i,
            ),
    decreases i,
{
    assert(followed_well(items, i - 1));
    if items[i - 1].indent == level {
        assert(below(items, i - 1, i));
    } else {
        law_rows_have_ancestors(items, top, i - 1, level);
        let j = choose|j: int|
            0 <= j < i - 1 && items[j].indent == level && items[j].has_children && #[trigger] below(
                items,
                j,
                i - 1,
            );
        assert(below(items, j, i));
    }
}

/// Of a tree that was just built, exactly the rows down to the first collapsed level are shown.
pub proof fn law_new_tree_shows_first_levels(root: MibTree, i: int)
    requires
        0 <= i < tree_rows(root).len(),
    ensures
        hidden(tree_rows(root), i) <==> tree_rows(root)[i].indent > EXPANDED_LEVELS,
{
    let items = tree_rows(root);
    law_rows_nest(root);
    if hidden(items, i) {
        let j = choose|j: int| 0 <= j < i && collapsed(items[j]) && #[trigger] below(items, j, i);
        assert(items[i].indent > items[j].indent);
    }
    if items[i].indent > EXPANDED_LEVELS {
        law_rows_have_ancestors(items, 0, i, EXPANDED_LEVELS as int);
        let j = choose|j: int|
            0 <= j < i && items[j].indent == EXPANDED_LEVELS && items[j].has_children
                && #[trigger] below(items, j, i);
        assert(collapsed(items[j]));
    }
}

/// Expanding or collapsing a row keeps the rows in place.
pub proof fn law_toggle_keeps_nesting(items: Seq<TreeItemView>, top: int, p: int)
    requires
        well_nested(items, top),
        0 <= p < items.len(),
    ensures
        well_nested(toggled(items, p), top),
{
    let after = toggled(items, p);
    assert forall|i: int| 0 <= i < after.len() implies #[trigger] followed_well(after, i) by {
        assert(followed_well(items, i));
    }
}

/// A node and everything below it, depth first.
pub open spec fn preorder(node: MibTree) -> Seq<MibTree>
    decreases node,
{
    seq![node] + forest_preorder(node.children)
}

/// Sibling nodes and everything below them, depth first.
pub open spec fn forest_preorder(nodes: Seq<MibTree>) -> Seq<MibTree>
    decreases nodes,
{
    if nodes.len() == 0 {
        Seq::empty()
    } else {
        forest_preorder(nodes.drop_last()) + preorder(nodes.last())
    }
}

/// `a` comes before `b`: it is a proper start of `b`, or has a smaller arc where they part.
pub open spec fn oid_before(a: Seq<u32>, b: Seq<u32>) -> bool {
    exists|k: int| #[trigger] parts_at(a, b, k)
}

/// `a` and `b` agree on the first `k` arcs, and there `a` ends or has the smaller arc.
pub open spec fn parts_at(a: Seq<u32>, b: Seq<u32>, k: int) -> bool {
    &&& 0 <= k <= a.len()
    &&& k < b.len()
    &&& a.take(k) == b.take(k)
    &&& k < a.len() ==> a[k] < b[k]
}

/// Sibling nodes one arc below `parent`, ordered by that arc, each well placed.
spec fn siblings(nodes: Seq<MibTree>, parent: Seq<u32>) -> bool {
    &&& forall|i: int|
        0 <= i < nodes.len() ==> {
            let node = #[trigger] nodes[i];
            &&& node.oid.len() == parent.len() + 1
            &&& node.oid.drop_last() == parent
            &&& node.well_placed()
        }
    &&& forall|i: int, j: int|
        0 <= i < j < nodes.len() ==> (#[trigger] nodes[i]).oid.last() < (
        #[trigger] nodes[j]).oid.last()
}

/// The rows and the nodes of a forest match, and the nodes come in the order of their OIDs.
spec fn matched(
    items: Seq<TreeItemView>,
    nodes: Seq<MibTree>,
    parent: Seq<u32>,
) -> bool {
    &&& items.len() == nodes.len()
    &&& forall|i: int|
        0 <= i < nodes.len() ==> {
            let node = #[trigger] nodes[i];
            &&& node.oid.len() > parent.len()
            &&& node.oid.take(parent.len() as int) == parent
            &&& items[i] == item_of(node, node.oid.len() - 1)
        }
    &&& forall|i: int, j: int|
        0 <= i < j < nodes.len() ==> oid_before(
            (#[trigger] nodes[i]).oid,
            (#[trigger] nodes[j]).oid,
        )
}

proof fn lemma_preorder(node: MibTree, parent: Seq<u32>)
    requires
        node.oid.len() == parent.len() + 1,
        node.oid.drop_last() == parent,
        node.well_placed(),
    ensures
        matched(rows(node, parent.len() as int), preorder(node), parent),
        forall|i: int|
            0 <= i < preorder(node).len() ==> {
                let below = #[trigger] preorder(node)[i];
                &&& below.oid.len() > parent.len()
                &&& below.oid[parent.len() as int] == node.oid.last()
            },
    decreases node,
{
    let depth = parent.len() as int;
    let items = rows(node, depth);
    let nodes = preorder(node);
    let rest = forest_preorder(node.children);
    lemma_forest_preorder(node.children, node.oid);
    assert(node.oid.take(depth) =~= parent);
    assert(forall|i: int| 1 <= i < nodes.len() ==> #[trigger] nodes[i] == rest[i - 1]);
    assert forall|i: int| 0 <= i < nodes.len() implies {
        let below = #[trigger] nodes[i];
        &&& below.oid.len() > parent.len()
        &&& below.oid.take(depth) == parent
        &&& below.oid[depth] == node.oid.last()
        &&& items[i] == item_of(below, below.oid.len() - 1)
    } by {
        if i > 0 {
            let below = rest[i - 1];
            assert(below.oid.take(depth + 1) == node.oid);
            assert(below.oid.take(depth) =~= node.oid.take(depth));
            assert(below.oid[depth] == below.oid.take(depth + 1)[depth]);
        }
    }
    assert forall|i: int, j: int| 0 <= i < j < nodes.len() implies oid_before(
        (#[trigger] nodes[i]).oid,
        (#[trigger] nodes[j]).oid,
    ) by {
        if i == 0 {
            let below = rest[j - 1];
            assert(node.oid.take(depth + 1) =~= node.oid);
            assert(parts_at(node.oid, below.oid, depth + 1));
        } else {
            assert(oid_before(rest[i - 1].oid, rest[j - 1].oid));
        }
    }
}

proof fn lemma_forest_preorder(nodes: Seq<MibTree>, parent: Seq<u32>)
    requires
        siblings(nodes, parent),
    ensures
        matched(forest_rows(nodes, parent.len() as int), forest_preorder(nodes), parent),
        forall|i: int|
            0 <= i < forest_preorder(nodes).len() ==> {
                let below = #[trigger] forest_preorder(nodes)[i];
                &&& nodes.len() > 0
                &&& below.oid.len() > parent.len()
                &&& below.oid[parent.len() as int] <= nodes.last().oid.last()
            },
    decreases nodes,
{
    if nodes.len() > 0 {
        let depth = parent.len() as int;
        let fewer = nodes.drop_last();
        let last = nodes.last();
        assert(siblings(fewer, parent)) by {
            assert(forall|i: int| 0 <= i < fewer.len() ==> #[trigger] fewer[i] == nodes[i]);
        }
        lemma_forest_preorder(fewer, parent);
        lemma_preorder(last, parent);
        let start = forest_preorder(fewer);
        let end = preorder(last);
        let all = forest_preorder(nodes);
        let start_rows = forest_rows(fewer, depth);
        let end_rows = rows(last, depth);
        let all_rows = forest_rows(nodes, depth);
        let n = start.len() as int;
        assert(forall|i: int|
            0 <= i < n ==> #[trigger] all[i] == start[i] && all_rows[i] == start_rows[i]);
        assert(forall|i: int|
            n <= i < all.len() ==> #[trigger] all[i] == end[i - n] && all_rows[i] == end_rows[i - n]);
        assert forall|i: int| 0 <= i < n implies (#[trigger] start[i]).oid[depth]
            < last.oid.last() by {
            assert(start[i].oid[depth] <= fewer.last().oid.last());
            assert(fewer.last() == nodes[nodes.len() - 2]);
        }
        assert forall|i: int, j: int| 0 <= i < j < all.len() implies oid_before(
            (#[trigger] all[i]).oid,
            (#[trigger] all[j]).oid,
        ) by {
            if j < n {
                assert(oid_before(start[i].oid, start[j].oid));
            } else if i >= n {
                assert(oid_before(end[i - n].oid, end[j - n].oid));
            } else {
                assert(start[i].oid[depth] < last.oid.last());
                assert(end[j - n].oid[depth] == last.oid.last());
                assert(start[i].oid.take(depth) == parent);
                assert(parts_at(all[i].oid, all[j].oid, depth));
            }
        }
    }
}

/// Each row of a tree shows one node, in the order of the nodes' OIDs, and its indent counts the
/// arcs above the node.
pub proof fn law_rows_follow_oids(root: MibTree)
    requires
        root.oid.len() == 0,
        root.well_placed(),
    ensures
        tree_rows(root).len() == forest_preorder(root.children).len(),
        forall|i: int|
            0 <= i < tree_rows(root).len() ==> {
                let node = #[trigger] forest_preorder(root.children)[i];
                &&& node.oid.len() > 0
                &&& tree_rows(root)[i] == item_of(node, node.oid.len() - 1)
            },
        forall|i: int, j: int|
            0 <= i < j < tree_rows(root).len() ==> oid_before(
                (#[trigger] forest_preorder(root.children)[i]).oid,
                (#[trigger] forest_preorder(root.children)[j]).oid,
            ),
{
    lemma_forest_preorder(root.children, root.oid);
}

proof fn lemma_decimal_free(arc: u32)
    ensures
        free_of(decimal(arc as int), '.'),
{
    law_digits_are_digits(arc as nat);
}

/// Two OIDs with the same dotted notation are the same.
pub proof fn law_dotted_is_unique(a: Seq<u32>, b: Seq<u32>)
    requires
        a.len() > 0,
        b.len() > 0,
        dotted(a) == dotted(b),
    ensures
        a == b,
{
    let write = |arc: u32| decimal(arc as int);
    let x = a.map_values(write);
    let y = b.map_values(write);
    reveal_strlit(".");
    assert("."@ =~= seq!['.']);
    assert forall|i: int| 0 <= i < x.len() implies free_of(#[trigger] x[i], '.') by {
        lemma_decimal_free(a[i]);
    }
    assert forall|i: int| 0 <= i < y.len() implies free_of(#[trigger] y[i], '.') by {
        lemma_decimal_free(b[i]);
    }
    law_split_undoes_join(x, '.');
    law_split_undoes_join(y, '.');
    assert(x == y);
    assert forall|i: int| 0 <= i < a.len() implies a[i] == b[i] by {
        assert(x[i] == y[i]);
        law_digits_are_unique(a[i] as nat, b[i] as nat);
    }
    assert(a =~= b);
}

/// No two rows of a tree show the same OID.
pub proof fn law_row_oids_are_distinct(root: MibTree, i: int, j: int)
    requires
        root.oid.len() == 0,
        root.well_placed(),
        0 <= i < j < tree_rows(root).len(),
    ensures
        tree_rows(root)[i].oid != tree_rows(root)[j].oid,
{
    law_rows_follow_oids(root);
    let nodes = forest_preorder(root.children);
    let a = nodes[i].oid;
    let b = nodes[j].oid;
    assert(oid_before(a, b));
    if tree_rows(root)[i].oid == tree_rows(root)[j].oid {
        let dot = "."@;
        reveal_strlit(".");
        assert((dot + dotted(a)).skip(1) =~= dotted(a));
        assert((dot + dotted(b)).skip(1) =~= dotted(b));
        law_dotted_is_unique(a, b);
        let k = choose|k: int| #[trigger] parts_at(a, b, k);
    }
}

/// The name shown in the tree ends with the node's own arc in brackets.
pub proof fn law_tree_name_ends_with_arc(node: MibTree, depth: int)
    requires
        node.oid.len() > 0,
    ensures
        shown(item_of(node, depth)).tree_name == display_name(node) + " ("@ + decimal(
            node.oid.last() as int,
        ) + ")"@,
{
    let write = |arc: u32| decimal(arc as int);
    let parts = node.oid.map_values(write);
    let last = decimal(node.oid.last() as int);
    reveal_strlit(".");
    lemma_decimal_free(node.oid.last());
    assert(parts.last() == last);
    let start = joined(parts.drop_last(), "."@);
    if node.oid.len() == 1 {
        assert(parts.drop_last() =~= Seq::empty());
        assert(oid_text(node) =~= Seq::empty().push('.') + last);
        law_last_segment(Seq::empty(), last);
    } else {
        let head = "."@ + start;
        assert(oid_text(node) =~= head.push('.') + last);
        law_last_segment(head, last);
    }
}

/// Every row has a name.
pub proof fn law_rows_have_names(node: MibTree, depth: int)
    ensures
        item_of(node, depth).name.len() > 0,
{
    reveal_strlit(".");
}

/// A shown row carries its row's name, OID, indent and marks unchanged, and is labelled by its
/// name and the last part of its OID in brackets.
pub proof fn law_shown(item: TreeItemView)
    ensures
        shown(item).name == item.name,
        shown(item).oid == item.oid,
        shown(item).indent == item.indent,
        shown(item).is_expanded == item.is_expanded,
        shown(item).has_children == item.has_children,
        shown(item).tree_name == item.name + " ("@ + last_segment(item.oid) + ")"@,
{
}

/// The dotted notation of an OID splits at its dots into the decimal notations of its arcs.
pub proof fn law_dotted(oid: Seq<u32>)
    ensures
        oid.len() == 0 ==> dotted(oid).len() == 0,
        oid.len() > 0 ==> split(dotted(oid), '.').len() == oid.len(),
        oid.len() > 0 ==> forall|i: int|
            0 <= i < oid.len() ==> #[trigger] split(dotted(oid), '.')[i] == decimal(oid[i] as int),
{
    let parts = oid.map_values(|arc: u32| decimal(arc as int));
    reveal_strlit(".");
    assert("."@ =~= seq!['.']);
    if oid.len() > 0 {
        assert forall|i: int| 0 <= i < parts.len() implies free_of(#[trigger] parts[i], '.') by {
            lemma_decimal_free(oid[i]);
        }
        law_split_undoes_join(parts, '.');
    }
}

/// A node is named by its trimmed name or, without one, by a dot and its own arc; its OID is shown
/// behind a dot.
pub proof fn law_names(node: MibTree)
    ensures
        oid_text(node) == seq!['.'] + dotted(node.oid),
        trimmed(node.name).len() > 0 ==> display_name(node) == trimmed(node.name),
        trimmed(node.name).len() == 0 && node.oid.len() > 0 ==> display_name(node) == seq!['.']
            + decimal(node.oid.last() as int),
{
    reveal_strlit(".");
    assert("."@ =~= seq!['.']);
    if node.oid.len() > 0 {
        let parts = node.oid.map_values(|arc: u32| decimal(arc as int));
        let last = decimal(node.oid.last() as int);
        lemma_decimal_free(node.oid.last());
        assert(parts.last() == last);
        if node.oid.len() == 1 {
            assert(parts.drop_last() =~= Seq::empty());
            assert(oid_text(node) =~= Seq::empty().push('.') + last);
            law_last_segment(Seq::empty(), last);
        } else {
            let head = "."@ + joined(parts.drop_last(), "."@);
            assert(oid_text(node) =~= head.push('.') + last);
            law_last_segment(head, last);
        }
    }
}

/// Each status has its own word.
pub proof fn law_status_text(status: Status)
    ensures
        status == Status::Current ==> status_text(status) == "Current"@,
        status == Status::Deprecated ==> status_text(status) == "Deprecated"@,
        status == Status::Obsolete ==> status_text(status) == "Obsolete"@,
        status == Status::Mandatory ==> status_text(status) == "Mandatory"@,
        status == Status::Optional ==> status_text(status) == "Optional"@,
{
}

/// Bounds are written as their ends with two dots between, and those of two lists with a bar
/// between.
pub proof fn law_bounds_text(
    a: Seq<(Seq<char>, Seq<char>)>,
    b: Seq<(Seq<char>, Seq<char>)>,
    low: Seq<char>,
    high: Seq<char>,
)
    ensures
        bounds_text(Seq::empty()) == Seq::<char>::empty(),
        bounds_text(seq![(low, high)]) == low + ".."@ + high,
        a.len() > 0 && b.len() > 0 ==> bounds_text(a + b) == bounds_text(a) + " | "@ + bounds_text(
            b,
        ),
{
    let write = |b: (Seq<char>, Seq<char>)| b.0 + ".."@ + b.1;
    let none = Seq::<(Seq<char>, Seq<char>)>::empty();
    assert(none.map_values(write) =~= Seq::empty());
    assert(seq![(low, high)].map_values(write) =~= seq![low + ".."@ + high]);
    assert((a + b).map_values(write) =~= a.map_values(write) + b.map_values(write));
    law_joined(a.map_values(write), b.map_values(write), low + ".."@ + high, " | "@);
}

/// Labels are written with their value in brackets, and those of two lists with a comma and a
/// space between.
pub proof fn law_labels_text(
    a: Seq<(Seq<char>, i64)>,
    b: Seq<(Seq<char>, i64)>,
    label: Seq<char>,
    value: i64,
)
    ensures
        labels_text(Seq::empty()) == Seq::<char>::empty(),
        labels_text(seq![(label, value)]) == label + "("@ + decimal(value as int) + ")"@,
        a.len() > 0 && b.len() > 0 ==> labels_text(a + b) == labels_text(a) + ", "@ + labels_text(
            b,
        ),
{
    let write = |l: (Seq<char>, i64)| l.0 + "("@ + decimal(l.1 as int) + ")"@;
    let none = Seq::<(Seq<char>, i64)>::empty();
    let one = label + "("@ + decimal(value as int) + ")"@;
    assert(none.map_values(write) =~= Seq::empty());
    assert(seq![(label, value)].map_values(write) =~= seq![one]);
    assert((a + b).map_values(write) =~= a.map_values(write) + b.map_values(write));
    law_joined(a.map_values(write), b.map_values(write), one, ", "@);
}

/// A label with its value in brackets, behind a space unless it comes first.
spec fn label_piece(labels: Seq<(Seq<char>, i64)>, i: int) -> Seq<char> {
    (if i == 0 {
        Seq::empty()
    } else {
        seq![' ']
    }) + labels[i].0 + seq!['('] + decimal(labels[i].1 as int) + seq![')']
}

proof fn lemma_label_pieces(labels: Seq<(Seq<char>, i64)>, n: int)
    requires
        0 < n <= labels.len(),
    ensures
        labels_text(labels.take(n)) == joined(
            Seq::new(n as nat, |i: int| label_piece(labels, i)),
            seq![','],
        ),
    decreases n,
{
    reveal_strlit("(");
    reveal_strlit(")");
    reveal_strlit(", ");
    let pieces = Seq::new(n as nat, |i: int| label_piece(labels, i));
    let last = labels[n - 1];
    if n == 1 {
        law_labels_text(labels, labels, last.0, last.1);
        assert(labels.take(1) =~= seq![last]);
        law_joined(pieces, pieces, label_piece(labels, 0), seq![',']);
        assert(pieces =~= seq![label_piece(labels, 0)]);
        assert(labels_text(seq![last]) =~= label_piece(labels, 0));
    } else {
        lemma_label_pieces(labels, n - 1);
        let fewer = Seq::new((n - 1) as nat, |i: int| label_piece(labels, i));
        assert(labels.take(n) =~= labels.take(n - 1) + seq![last]);
        law_labels_text(labels.take(n - 1), seq![last], last.0, last.1);
        assert(pieces =~= fewer + seq![label_piece(labels, n - 1)]);
        law_joined(
            fewer,
            seq![label_piece(labels, n - 1)],
            label_piece(labels, n - 1),
            seq![','],
        );
        assert(", "@ =~= seq![','] + seq![' ']);
        assert(labels_text(labels.take(n)) =~= joined(pieces, seq![',']));
    }
}

/// Every label is listed: where no label holds a comma, the text splits at its commas into one
/// piece for each label, which is the label with its value in brackets.
pub proof fn law_every_label_is_listed(labels: Seq<(Seq<char>, i64)>)
    requires
        labels.len() > 0,
        forall|i: int, k: int|
            0 <= i < labels.len() && 0 <= k < labels[i].0.len() ==> #[trigger] labels[i].0[k] != ',',
    ensures
        split(labels_text(labels), ',').len() == labels.len(),
        forall|i: int|
            0 <= i < labels.len() ==> #[trigger] split(labels_text(labels), ',')[i] == (if i == 0 {
                Seq::empty()
            } else {
                seq![' ']
            }) + labels[i].0 + seq!['('] + decimal(labels[i].1 as int) + seq![')'],
{
    let n = labels.len() as int;
    let pieces = Seq::new(labels.len(), |i: int| label_piece(labels, i));
    lemma_label_pieces(labels, n);
    assert(labels.take(n) =~= labels);
    assert forall|i: int| 0 <= i < pieces.len() implies free_of(#[trigger] pieces[i], ',') by {
        let value = labels[i].1 as int;
        assert(free_of(decimal(value), ',')) by {
            if value < 0 {
                law_digits_are_digits((-value) as nat);
            } else {
                law_digits_are_digits(value as nat);
            }
        }
        let label = labels[i].0;
        let start: Seq<char> = if i == 0 {
            Seq::empty()
        } else {
            seq![' ']
        };
        let a = start + label;
        let b = a + seq!['('];
        let c = b + decimal(value);
        assert(free_of(a, ','));
        assert(free_of(b, ','));
        assert(free_of(c, ','));
        assert(pieces[i] == c + seq![')']);
    }
    law_split_undoes_join(pieces, ',');
}

/// The syntax starts with the type's name and, where it is another, the type under it in
/// brackets. Sizes, ranges and labels each follow in their own brackets, in this order.
pub proof fn law_type_text(ty: TypeView, enums: Seq<(Seq<char>, i64)>)
    ensures
        ({
            let plain = TypeView { sizes: Seq::empty(), ranges: Seq::empty(), ..ty };
            let sized = TypeView { ranges: Seq::empty(), ..ty };
            let none = Seq::<(Seq<char>, i64)>::empty();
            &&& ty.name == ty.base ==> type_text(plain, none) == ty.name
            &&& ty.name != ty.base ==> type_text(plain, none) == ty.name + " ("@ + ty.base + ")"@
            &&& type_text(sized, none) == type_text(plain, none) + (if ty.sizes.len() == 0 {
                Seq::empty()
            } else {
                " (SIZE ("@ + bounds_text(ty.sizes) + "))"@
            })
            &&& type_text(ty, none) == type_text(sized, none) + (if ty.ranges.len() == 0 {
                Seq::empty()
            } else {
                " ("@ + bounds_text(ty.ranges) + ")"@
            })
            &&& type_text(ty, enums) == type_text(ty, none) + (if enums.len() == 0 {
                Seq::empty()
            } else {
                " {"@ + labels_text(enums) + "}"@
            })
        }),
{
    let plain = TypeView { sizes: Seq::empty(), ranges: Seq::empty(), ..ty };
    let sized = TypeView { ranges: Seq::empty(), ..ty };
    let none = Seq::<(Seq<char>, i64)>::empty();
    let empty = Seq::<char>::empty();
    let head = if ty.name != ty.base {
        ty.name + " ("@ + ty.base + ")"@
    } else {
        ty.name
    };
    let sizes = if ty.sizes.len() == 0 {
        empty
    } else {
        " (SIZE ("@ + bounds_text(ty.sizes) + "))"@
    };
    let ranges = if ty.ranges.len() == 0 {
        empty
    } else {
        " ("@ + bounds_text(ty.ranges) + ")"@
    };
    assert(head + empty + empty + empty =~= head);
    assert(head + sizes + empty + empty =~= head + sizes);
    assert(head + sizes + ranges + empty =~= head + sizes + ranges);
    assert(type_text(plain, none) == head + empty + empty + empty);
    assert(type_text(sized, none) == head + sizes + empty + empty);
    assert(type_text(ty, none) == head + sizes + ranges + empty);
}

/// The properties of a node: its name, OID and module, its description, and what an object at
/// the node adds. The object's description, where it has one, replaces the node's.
pub proof fn law_info(node: MibTree)
    ensures
        info_of(node).name == display_name(node),
        info_of(node).oid == oid_text(node),
        node.module matches Some(module) ==> info_of(node).mib_module == module,
        node.module is None ==> info_of(node).mib_module.len() == 0,
        node.object is None ==> {
            &&& info_of(node).syntax.len() == 0
            &&& info_of(node).access.len() == 0
            &&& info_of(node).status.len() == 0
            &&& info_of(node).defval.len() == 0
            &&& info_of(node).indexes.len() == 0
            &&& info_of(node).descr == node.description
        },
        node.object matches Some(object) ==> {
            &&& object.syntax matches Some(ty) ==> info_of(node).syntax == type_text(
                ty,
                object.enums,
            )
            &&& object.syntax is None ==> info_of(node).syntax.len() == 0
            &&& info_of(node).access == object.access
            &&& info_of(node).status == status_text(object.status)
            &&& object.default_value matches Some(value) ==> info_of(node).defval == value
            &&& object.default_value is None ==> info_of(node).defval.len() == 0
            &&& info_of(node).indexes == joined(object.indexes, ", "@)
            &&& object.description.len() > 0 ==> info_of(node).descr == lines_trimmed(
                object.description,
            )
            &&& object.description.len() == 0 ==> info_of(node).descr == node.description
        },
{
}

/// The row of a node shows its properties and its depth, tells whether it has children, and is
/// expanded on the first three levels.
pub proof fn law_item(node: MibTree, depth: int)
    ensures
        item_of(node, depth).name == display_name(node),
        item_of(node, depth).oid == oid_text(node),
        item_of(node, depth).indent == depth,
        item_of(node, depth).has_children <==> node.children.len() > 0,
        item_of(node, depth).is_expanded <==> depth < 3,
        item_of(node, depth).info == info_of(node),
{
}

/// The rows of a node are its own and then those of its children, one level deeper; the rows of
/// two lists of siblings follow each other; the rows of a tree are those below its root.
pub proof fn law_rows(node: MibTree, a: Seq<MibTree>, b: Seq<MibTree>, depth: int)
    ensures
        rows(node, depth).len() > 0,
        rows(node, depth)[0] == item_of(node, depth),
        rows(node, depth).drop_first() == forest_rows(node.children, depth + 1),
        forest_rows(Seq::empty(), depth).len() == 0,
        forest_rows(seq![node], depth) == rows(node, depth),
        forest_rows(a + b, depth) == forest_rows(a, depth) + forest_rows(b, depth),
        tree_rows(node) == forest_rows(node.children, 0),
    decreases b.len(),
{
    assert(rows(node, depth).drop_first() =~= forest_rows(node.children, depth + 1));
    let one = seq![node];
    assert(one.drop_last() =~= Seq::empty());
    assert(forest_rows(one.drop_last(), depth) =~= Seq::empty());
    assert(forest_rows(one, depth) =~= rows(node, depth));
    if b.len() > 0 {
        law_rows(node, a, b.drop_last(), depth);
        assert((a + b).drop_last() =~= a + b.drop_last());
        assert(forest_rows(a + b, depth) =~= forest_rows(a, depth) + forest_rows(b, depth));
    } else {
        assert(a + b =~= a);
        assert(forest_rows(a + b, depth) =~= forest_rows(a, depth) + forest_rows(b, depth));
    }
}

/// The nodes of a tree depth first: a node, then those below its children, and those of two lists
/// of siblings after each other.
pub proof fn law_preorder(node: MibTree, a: Seq<MibTree>, b: Seq<MibTree>)
    ensures
        preorder(node).len() > 0,
        preorder(node)[0] == node,
        preorder(node).drop_first() == forest_preorder(node.children),
        forest_preorder(Seq::empty()).len() == 0,
        forest_preorder(seq![node]) == preorder(node),
        forest_preorder(a + b) == forest_preorder(a) + forest_preorder(b),
    decreases b.len(),
{
    assert(preorder(node).drop_first() =~= forest_preorder(node.children));
    let one = seq![node];
    assert(one.drop_last() =~= Seq::empty());
    assert(forest_preorder(one.drop_last()) =~= Seq::empty());
    assert(forest_preorder(one) =~= preorder(node));
    if b.len() > 0 {
        law_preorder(node, a, b.drop_last());
        assert((a + b).drop_last() =~= a + b.drop_last());
        assert(forest_preorder(a + b) =~= forest_preorder(a) + forest_preorder(b));
    } else {
        assert(a + b =~= a);
        assert(forest_preorder(a + b) =~= forest_preorder(a) + forest_preorder(b));
    }
}

proof fn lemma_child_rows(nodes: Seq<MibTree>, c: int, depth: int, k: int) -> (i: int)
    requires
        0 <= c < nodes.len(),
        0 <= k < rows(nodes[c], depth).len(),
    ensures
        0 <= i < forest_rows(nodes, depth).len(),
        forest_rows(nodes, depth)[i] == rows(nodes[c], depth)[k],
{
    let a = nodes.take(c);
    let b = nodes.skip(c + 1);
    let node = nodes[c];
    law_rows(node, a, seq![node], depth);
    law_rows(node, a + seq![node], b, depth);
    assert(a + seq![node] + b =~= nodes);
    forest_rows(a, depth).len() as int + k
}

proof fn lemma_deep_row(node: MibTree, depth: int, levels: nat) -> (i: int)
    requires
        !node.fits(levels),
    ensures
        0 <= i < rows(node, depth).len(),
        rows(node, depth)[i].indent >= depth + levels,
    decreases node,
{
    law_rows(node, node.children, node.children, depth);
    if levels == 0 {
        0
    } else {
        let c = choose|c: int|
            0 <= c < node.children.len() && !(#[trigger] node.children[c]).fits(
                (levels - 1) as nat,
            );
        let k = lemma_deep_row(node.children[c], depth + 1, (levels - 1) as nat);
        let i = lemma_child_rows(node.children, c, depth + 1, k);
        assert(rows(node, depth)[i + 1] == rows(node, depth).drop_first()[i]);
        i + 1
    }
}

proof fn lemma_rows_fit(node: MibTree, depth: int, levels: nat)
    requires
        node.fits(levels),
    ensures
        forall|i: int|
            0 <= i < rows(node, depth).len() ==> (#[trigger] rows(node, depth)[i]).indent < depth
                + levels,
    decreases node,
{
    let items = rows(node, depth);
    let rest = forest_rows(node.children, depth + 1);
    lemma_forest_fits(node.children, depth + 1, (levels - 1) as nat);
    assert forall|i: int| 0 <= i < items.len() implies (#[trigger] items[i]).indent < depth
        + levels by {
        if i > 0 {
            assert(items[i] == rest[i - 1]);
        }
    }
}

proof fn lemma_forest_fits(nodes: Seq<MibTree>, depth: int, levels: nat)
    requires
        forall|c: int| 0 <= c < nodes.len() ==> (#[trigger] nodes[c]).fits(levels),
    ensures
        forall|i: int|
            0 <= i < forest_rows(nodes, depth).len() ==> (#[trigger] forest_rows(nodes, depth)[i]).indent
                < depth + levels,
    decreases nodes,
{
    if nodes.len() > 0 {
        let fewer = nodes.drop_last();
        assert forall|c: int| 0 <= c < fewer.len() implies (#[trigger] fewer[c]).fits(levels) by {
            assert(fewer[c] == nodes[c]);
        }
        assert(nodes[nodes.len() - 1].fits(levels));
        lemma_forest_fits(fewer, depth, levels);
        lemma_rows_fit(nodes.last(), depth, levels);
        let start = forest_rows(fewer, depth);
        let end = rows(nodes.last(), depth);
        let items = forest_rows(nodes, depth);
        assert forall|i: int| 0 <= i < items.len() implies (#[trigger] items[i]).indent < depth
            + levels by {
            if i < start.len() {
                assert(items[i] == start[i]);
            } else {
                assert(items[i] == end[i - start.len()]);
            }
        }
    }
}

/// The rows of loaded modules are those of their tree wherever every indent is a 32-bit number,
/// and there are none otherwise; a failed load gives none.
pub proof fn law_loaded_rows(root: MibTree)
    ensures
        (forall|i: int|
            0 <= i < tree_rows(root).len() ==> (#[trigger] tree_rows(root)[i]).indent <= i32::MAX)
            ==> loaded_rows(root) == tree_rows(root),
        (exists|i: int|
            0 <= i < tree_rows(root).len() && (#[trigger] tree_rows(root)[i]).indent > i32::MAX)
            ==> loaded_rows(root).len() == 0,
        outcome_rows(Some(root)) == loaded_rows(root),
        outcome_rows(None).len() == 0,
{
    if countable(root) {
        lemma_forest_fits(root.children, 0, LEVEL_LIMIT as nat);
    } else {
        let c = choose|c: int|
            0 <= c < root.children.len() && !(#[trigger] root.children[c]).fits(LEVEL_LIMIT as nat);
        let k = lemma_deep_row(root.children[c], 0, LEVEL_LIMIT as nat);
        let i = lemma_child_rows(root.children, c, 0, k);
        assert(tree_rows(root)[i].indent > i32::MAX);
    }
}

/// The views of rows and shown rows hold their fields, and those of a list its rows one by one.
pub proof fn law_row_views(item: TreeItem, node: MibNode, info: MibInfo, items: Seq<TreeItem>)
    ensures
        item@.name == item.name@,
        item@.oid == item.oid@,
        item@.indent == item.indent,
        item@.has_children == item.has_children,
        item@.is_expanded == item.is_expanded,
        item@.info == item.info@,
        node@.tree_name == node.tree_name@,
        node@.name == node.name@,
        node@.oid == node.oid@,
        node@.indent == node.indent,
        node@.is_expanded == node.is_expanded,
        node@.has_children == node.has_children,
        info@.name == info.name@,
        info@.oid == info.oid@,
        info@.mib_module == info.mib_module@,
        info@.syntax == info.syntax@,
        info@.access == info.access@,
        info@.status == info.status@,
        info@.defval == info.defval@,
        info@.indexes == info.indexes@,
        info@.descr == info.descr@,
        item_views(items).len() == items.len(),
        forall|i: int| 0 <= i < items.len() ==> #[trigger] item_views(items)[i] == items[i]@,
{
}

/// The views of entries of the OID tree hold their fields, and their lists item by item.
pub proof fn law_entry_views(entry: MibEntry, object: ObjectEntry, ty: TypeEntry)
    ensures
        entry.tree().oid == entry.oid@,
        entry.tree().name == entry.name@,
        entry.module matches Some(module) ==> entry.tree().module == Some(module@),
        entry.module is None ==> entry.tree().module is None,
        entry.tree().description == entry.description@,
        entry.object matches Some(object) ==> entry.tree().object == Some(object@),
        entry.object is None ==> entry.tree().object is None,
        entry.tree().children.len() == entry.children@.len(),
        forall|i: int|
            0 <= i < entry.children@.len() ==> #[trigger] entry.tree().children[i]
                == entry.children@[i].tree(),
        object@.status == object.status,
        object@.access == object.access@,
        object@.description == object.description@,
        object.syntax matches Some(syntax) ==> object@.syntax == Some(syntax@),
        object.syntax is None ==> object@.syntax is None,
        object@.enums.len() == object.enums@.len(),
        forall|i: int|
            0 <= i < object.enums@.len() ==> #[trigger] object@.enums[i] == (
                object.enums@[i].0@,
                object.enums@[i].1,
            ),
        object@.indexes.len() == object.indexes@.len(),
        forall|i: int|
            0 <= i < object.indexes@.len() ==> #[trigger] object@.indexes[i] == object.indexes@[i]@,
        object.default_value matches Some(value) ==> object@.default_value == Some(value@),
        object.default_value is None ==> object@.default_value is None,
        ty@.name == ty.name@,
        ty@.base == ty.base@,
        ty@.sizes.len() == ty.sizes@.len(),
        forall|i: int|
            0 <= i < ty.sizes@.len() ==> #[trigger] ty@.sizes[i] == (
                ty.sizes@[i].0@,
                ty.sizes@[i].1@,
            ),
        ty@.ranges.len() == ty.ranges@.len(),
        forall|i: int|
            0 <= i < ty.ranges@.len() ==> #[trigger] ty@.ranges[i] == (
                ty.ranges@[i].0@,
                ty.ranges@[i].1@,
            ),
{
}

} // verus!
