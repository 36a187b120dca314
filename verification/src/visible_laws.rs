//! What holds of the rows that are shown.

use vstd::prelude::*;

use crate::tree::{shown, MibNode, TreeItemView};
use crate::visible::{
    below, collapsed, hidden, node_views, positions, toggled, visible_nodes, visible_positions,
};

verus! {

proof fn lemma_filtered_range(n: nat, keep: spec_fn(int) -> bool)
    ensures
        ({
            let kept = Seq::new(n, |i: int| i).filter(keep);
            &&& forall|a: int, b: int| 0 <= a < b < kept.len() ==> kept[a] < kept[b]
            &&& forall|p: int| #[trigger] kept.contains(p) <==> 0 <= p < n && keep(p)
        }),
    decreases n,
{
    reveal(Seq::filter);
    let all = Seq::new(n, |i: int| i);
    let kept = all.filter(keep);
    if n > 0 {
        let m = (n - 1) as nat;
        let fewer = Seq::new(m, |i: int| i);
        assert(all.drop_last() =~= fewer);
        lemma_filtered_range(m, keep);
        let before = fewer.filter(keep);
        assert forall|a: int| 0 <= a < before.len() implies #[trigger] before[a] < m by {
            assert(before.contains(before[a]));
        }
        assert forall|p: int| #[trigger] kept.contains(p) <==> 0 <= p < n && keep(p) by {
            if keep(m as int) {
                assert(kept == before.push(m as int));
                if before.contains(p) {
                    let a = choose|a: int| 0 <= a < before.len() && before[a] == p;
                    assert(kept[a] == p);
                }
                if kept.contains(p) && p != m {
                    let a = choose|a: int| 0 <= a < kept.len() && kept[a] == p;
                    assert(before[a] == p);
                }
                assert(kept[before.len() as int] == m);
            }
        }
    } else {
        assert(all =~= Seq::empty());
    }
}

/// The positions of the shown rows ascend, and they are exactly those of the rows that are not
/// hidden.
pub proof fn law_visible_positions(items: Seq<TreeItemView>)
    ensures
        forall|a: int, b: int|
            0 <= a < b < visible_positions(items).len() ==> visible_positions(items)[a]
                < visible_positions(items)[b],
        forall|p: int| #[trigger]
            visible_positions(items).contains(p) <==> 0 <= p < items.len() && !hidden(items, p),
{
    lemma_filtered_range(items.len(), |i: int| !hidden(items, i));
}

/// A row with no smaller indent before it is shown, whatever is collapsed.
pub proof fn law_top_rows_are_shown(items: Seq<TreeItemView>, i: int)
    requires
        0 <= i < items.len(),
        forall|j: int| 0 <= j < i ==> (#[trigger] items[j]).indent >= items[i].indent,
    ensures
        !hidden(items, i),
{
    if hidden(items, i) {
        let j = choose|j: int| 0 <= j < i && collapsed(items[j]) && #[trigger] below(items, j, i);
        assert(items[i].indent > items[j].indent);
    }
}

/// A row below a hidden row is hidden: a shown row has all its ancestors shown.
pub proof fn law_descendants_of_hidden_rows_are_hidden(items: Seq<TreeItemView>, j: int, i: int)
    requires
        0 <= j < i < items.len(),
        hidden(items, j),
        below(items, j, i),
    ensures
        hidden(items, i),
{
    let a = choose|a: int| 0 <= a < j && collapsed(items[a]) && #[trigger] below(items, a, j);
    assert forall|k: int| a < k <= i implies (#[trigger] items[k]).indent > items[a].indent by {
        if k > j {
            assert(items[j].indent > items[a].indent);
        }
    }
    assert(below(items, a, i));
}

/// With nothing collapsed, all rows are shown.
pub proof fn law_expanded_tree_is_shown_whole(items: Seq<TreeItemView>)
    requires
        forall|j: int| 0 <= j < items.len() ==> !collapsed(#[trigger] items[j]),
    ensures
        visible_positions(items) == Seq::new(items.len(), |i: int| i),
{
    lemma_all_kept(items.len(), |i: int| !hidden(items, i));
}

proof fn lemma_all_kept(n: nat, keep: spec_fn(int) -> bool)
    requires
        forall|i: int| 0 <= i < n ==> #[trigger] keep(i),
    ensures
        Seq::new(n, |i: int| i).filter(keep) == Seq::new(n, |i: int| i),
    decreases n,
{
    reveal(Seq::filter);
    let all = Seq::new(n, |i: int| i);
    if n > 0 {
        let m = (n - 1) as nat;
        assert(all.drop_last() =~= Seq::new(m, |i: int| i));
        lemma_all_kept(m, keep);
        assert(keep(m as int));
        assert(all.filter(keep) =~= all);
    } else {
        assert(all.filter(keep) =~= all);
    }
}

/// Toggling a row twice changes nothing.
pub proof fn law_toggle_twice(items: Seq<TreeItemView>, p: int)
    requires
        0 <= p < items.len(),
    ensures
        toggled(toggled(items, p), p) == items,
{
    assert(toggled(toggled(items, p), p) =~= items);
}

/// Toggling a row leaves every row that is not below it shown or hidden as it was.
pub proof fn law_toggle_is_local(items: Seq<TreeItemView>, p: int, i: int)
    requires
        0 <= p < items.len(),
        0 <= i < items.len(),
        !(p < i && below(items, p, i)),
    ensures
        hidden(toggled(items, p), i) == hidden(items, i),
{
    let after = toggled(items, p);
    assert forall|j: int| 0 <= j < i implies #[trigger] below(after, j, i) == below(items, j, i) by {
        assert(forall|k: int| 0 <= k < items.len() ==> (#[trigger] after[k]).indent == items[k].indent);
        if below(items, j, i) {
            assert(forall|k: int| j < k <= i ==> (#[trigger] after[k]).indent > after[j].indent);
        }
        if below(after, j, i) {
            assert forall|k: int| j < k <= i implies (#[trigger] items[k]).indent > items[j].indent by {
                assert(after[k].indent > after[j].indent);
            }
        }
    }
    if hidden(items, i) {
        let j = choose|j: int| 0 <= j < i && collapsed(items[j]) && #[trigger] below(items, j, i);
        assert(j != p);
        assert(below(after, j, i));
    }
    if hidden(after, i) {
        let j = choose|j: int| 0 <= j < i && collapsed(after[j]) && #[trigger] below(after, j, i);
        assert(below(items, j, i));
        assert(j != p);
    }
}

/// Collapsing a row hides every row below it.
pub proof fn law_collapse_hides(items: Seq<TreeItemView>, p: int, i: int)
    requires
        0 <= p < i < items.len(),
        items[p].has_children,
        items[p].is_expanded,
        below(items, p, i),
    ensures
        hidden(toggled(items, p), i),
{
    let after = toggled(items, p);
    assert forall|k: int| p < k <= i implies (#[trigger] after[k]).indent > after[p].indent by {
        assert(items[k].indent > items[p].indent);
    }
    assert(below(after, p, i));
}

/// Expanding a shown row shows the rows directly below it.
pub proof fn law_expand_shows_children(items: Seq<TreeItemView>, p: int, i: int)
    requires
        0 <= p < i < items.len(),
        !hidden(items, p),
        collapsed(items[p]),
        below(items, p, i),
        items[i].indent == items[p].indent + 1,
    ensures
        !hidden(toggled(items, p), i),
{
    let after = toggled(items, p);
    if hidden(after, i) {
        let j = choose|j: int| 0 <= j < i && collapsed(after[j]) && #[trigger] below(after, j, i);
        assert(after[i].indent > after[j].indent);
        if j > p {
            assert(items[j].indent > items[p].indent);
        }
        assert(j != p);
        assert forall|k: int| j < k <= p implies (#[trigger] items[k]).indent > items[j].indent by {
            assert(after[k].indent > after[j].indent);
        }
        assert(below(items, j, p));
    }
}

/// The row that was clicked keeps its place among the shown rows, and so do those before it.
pub proof fn law_toggle_keeps_place(items: Seq<TreeItemView>, idx: int)
    requires
        0 <= idx < visible_positions(items).len(),
    ensures
        ({
            let after = visible_positions(toggled(items, visible_positions(items)[idx]));
            &&& idx < after.len()
            &&& after.take(idx + 1) == visible_positions(items).take(idx + 1)
        }),
{
    law_visible_positions(items);
    let p = visible_positions(items)[idx];
    assert(visible_positions(items).contains(p));
    let changed = toggled(items, p);
    assert forall|i: int| 0 <= i <= p implies #[trigger] hidden(changed, i) == hidden(items, i) by {
        law_toggle_is_local(items, p, i);
    }
    let keep = |i: int| !hidden(items, i);
    let keep_after = |i: int| !hidden(changed, i);
    lemma_common_start(items.len(), p, keep, keep_after);
    lemma_filtered_range((p + 1) as nat, keep);
    let start = Seq::new((p + 1) as nat, |i: int| i).filter(keep);
    let all = visible_positions(items);
    assert(start.contains(p));
    let a = choose|a: int| 0 <= a < start.len() && start[a] == p;
    assert(all.take(start.len() as int)[a] == p);
    assert(a == idx) by {
        if a < idx {
            assert(all[a] < all[idx]);
        }
        if idx < a {
            assert(all[idx] < all[a]);
        }
    }
    assert(start.len() == idx + 1) by {
        if idx + 1 < start.len() {
            assert(start[idx + 1] > p);
            assert(start.contains(start[idx + 1]));
        }
    }
}

proof fn lemma_common_start(
    n: nat,
    p: int,
    keep: spec_fn(int) -> bool,
    keep_after: spec_fn(int) -> bool,
)
    requires
        0 <= p < n,
        forall|i: int| 0 <= i <= p ==> #[trigger] keep(i) == keep_after(i),
    ensures
        ({
            let start = Seq::new((p + 1) as nat, |i: int| i).filter(keep);
            let all = Seq::new(n, |i: int| i).filter(keep);
            let all_after = Seq::new(n, |i: int| i).filter(keep_after);
            &&& start.len() <= all.len()
            &&& start.len() <= all_after.len()
            &&& all.take(start.len() as int) == start
            &&& all_after.take(start.len() as int) == start
        }),
    decreases n,
{
    reveal(Seq::filter);
    let whole = Seq::new(n, |i: int| i);
    let start = Seq::new((p + 1) as nat, |i: int| i).filter(keep);
    if n == p + 1 {
        lemma_same_filter(n, keep, keep_after);
        assert(start.take(start.len() as int) =~= start);
    } else {
        let m = (n - 1) as nat;
        assert(whole.drop_last() =~= Seq::new(m, |i: int| i));
        lemma_common_start(m, p, keep, keep_after);
        let all = whole.filter(keep);
        let all_after = whole.filter(keep_after);
        let fewer = Seq::new(m, |i: int| i).filter(keep);
        let fewer_after = Seq::new(m, |i: int| i).filter(keep_after);
        assert(all.take(start.len() as int) =~= fewer.take(start.len() as int));
        assert(all_after.take(start.len() as int) =~= fewer_after.take(start.len() as int));
    }
}

proof fn lemma_same_filter(n: nat, keep: spec_fn(int) -> bool, keep_after: spec_fn(int) -> bool)
    requires
        forall|i: int| 0 <= i < n ==> #[trigger] keep(i) == keep_after(i),
    ensures
        Seq::new(n, |i: int| i).filter(keep) == Seq::new(n, |i: int| i).filter(keep_after),
    decreases n,
{
    reveal(Seq::filter);
    let whole = Seq::new(n, |i: int| i);
    if n > 0 {
        let m = (n - 1) as nat;
        assert(whole.drop_last() =~= Seq::new(m, |i: int| i));
        lemma_same_filter(m, keep, keep_after);
        assert(keep(m as int) == keep_after(m as int));
    }
}

/// Toggling a row changes no other row, and of the row itself only whether it is expanded; of a
/// row without children nothing.
pub proof fn law_toggle_changes_one_row(items: Seq<TreeItemView>, p: int)
    requires
        0 <= p < items.len(),
    ensures
        toggled(items, p).len() == items.len(),
        forall|i: int| 0 <= i < items.len() && i != p ==> #[trigger] toggled(items, p)[i] == items[i],
        toggled(items, p)[p].is_expanded == (if items[p].has_children {
            !items[p].is_expanded
        } else {
            items[p].is_expanded
        }),
        toggled(items, p)[p].name == items[p].name,
        toggled(items, p)[p].oid == items[p].oid,
        toggled(items, p)[p].indent == items[p].indent,
        toggled(items, p)[p].has_children == items[p].has_children,
        toggled(items, p)[p].info == items[p].info,
{
}

/// A row is hidden exactly where a row before it has children, is not expanded, and is indented
/// less than every row after it up to the hidden one.
pub proof fn law_hidden(items: Seq<TreeItemView>, i: int)
    requires
        0 <= i < items.len(),
    ensures
        hidden(items, i) <==> exists|j: int|
            0 <= j < i && (#[trigger] items[j]).has_children && !items[j].is_expanded && (
            forall|k: int| j < k <= i ==> (#[trigger] items[k]).indent > items[j].indent),
{
    if exists|j: int|
        0 <= j < i && (#[trigger] items[j]).has_children && !items[j].is_expanded && (forall|k: int|
            j < k <= i ==> (#[trigger] items[k]).indent > items[j].indent) {
        let j = choose|j: int|
            0 <= j < i && (#[trigger] items[j]).has_children && !items[j].is_expanded && (
            forall|k: int| j < k <= i ==> (#[trigger] items[k]).indent > items[j].indent);
        assert(below(items, j, i));
    }
    if hidden(items, i) {
        let j = choose|j: int| 0 <= j < i && collapsed(items[j]) && #[trigger] below(items, j, i);
        assert(items[j].has_children);
    }
}

/// A child is shown exactly where its parent is shown and expanded.
pub proof fn law_child_is_shown_with_its_parent(items: Seq<TreeItemView>, p: int, i: int)
    requires
        0 <= p < i < items.len(),
        items[p].has_children,
        items[i].indent == items[p].indent + 1,
        forall|k: int| p < k <= i ==> (#[trigger] items[k]).indent > items[p].indent,
    ensures
        !hidden(items, i) <==> !hidden(items, p) && items[p].is_expanded,
{
    assert(below(items, p, i));
    if hidden(items, p) {
        law_descendants_of_hidden_rows_are_hidden(items, p, i);
    }
    if hidden(items, i) {
        let j = choose|j: int| 0 <= j < i && collapsed(items[j]) && #[trigger] below(items, j, i);
        assert(items[i].indent > items[j].indent);
        if j > p {
            assert(items[j].indent > items[p].indent);
        } else if j < p {
            assert(below(items, j, p));
        }
    }
}

/// What is shown at a place is the row at the position there.
pub proof fn law_visible_nodes(items: Seq<TreeItemView>)
    ensures
        visible_nodes(items).len() == visible_positions(items).len(),
        forall|k: int|
            0 <= k < visible_positions(items).len() ==> {
                let node = #[trigger] visible_nodes(items)[k];
                let item = items[visible_positions(items)[k]];
                &&& node == shown(item)
                &&& node.name == item.name
                &&& node.oid == item.oid
                &&& node.indent == item.indent
                &&& node.is_expanded == item.is_expanded
                &&& node.has_children == item.has_children
            },
{
}

/// Positions and shown rows are taken over one by one.
pub proof fn law_shown_lists(indices: Seq<usize>, nodes: Seq<MibNode>)
    ensures
        positions(indices).len() == indices.len(),
        forall|i: int| 0 <= i < indices.len() ==> #[trigger] positions(indices)[i] == indices[i],
        node_views(nodes).len() == nodes.len(),
        forall|i: int| 0 <= i < nodes.len() ==> #[trigger] node_views(nodes)[i] == nodes[i]@,
{
}

} // verus!
