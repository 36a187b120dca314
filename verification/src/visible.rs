//! Which rows of the tree are shown, and what clicks on them do.

use vstd::prelude::*;

use crate::tree::{item_views, shown, MibInfo, MibNode, MibNodeView, TreeItem, TreeItemView};
use crate::visible_laws::law_visible_positions;

verus! {

/// A row whose descendants are not shown.
pub open spec fn collapsed(item: TreeItemView) -> bool {
    item.has_children && !item.is_expanded
}

/// All rows after `j`, up to and with `i`, are indented more than row `j`.
pub open spec fn below(items: Seq<TreeItemView>, j: int, i: int) -> bool {
    forall|k: int| j < k <= i ==> (#[trigger] items[k]).indent > items[j].indent
}

/// A row below a collapsed row is not shown.
pub open spec fn hidden(items: Seq<TreeItemView>, i: int) -> bool {
    exists|j: int| 0 <= j < i && collapsed(items[j]) && #[trigger] below(items, j, i)
}

/// The positions of the rows that are shown, in order.
pub open spec fn visible_positions(items: Seq<TreeItemView>) -> Seq<int> {
    Seq::new(items.len(), |i: int| i).filter(|i: int| !hidden(items, i))
}

/// The rows that are shown, in order.
pub open spec fn visible_nodes(items: Seq<TreeItemView>) -> Seq<MibNodeView> {
    visible_positions(items).map_values(|i: int| shown(items[i]))
}

/// The positions held by `indices`.
pub open spec fn positions(indices: Seq<usize>) -> Seq<int> {
    indices.map_values(|i: usize| i as int)
}

/// The rows held by `nodes`.
pub open spec fn node_views(nodes: Seq<MibNode>) -> Seq<MibNodeView> {
    nodes.map_values(|node: MibNode| node@)
}

/// The positions before `n` of the rows that are shown.
spec fn visible_before(items: Seq<TreeItemView>, n: int) -> Seq<int> {
    Seq::new(n as nat, |i: int| i).filter(|i: int| !hidden(items, i))
}

proof fn lemma_visible_step(items: Seq<TreeItemView>, n: int)
    requires
        0 <= n < items.len(),
    ensures
        visible_before(items, n + 1) == (if hidden(items, n) {
            visible_before(items, n)
        } else {
            visible_before(items, n).push(n)
        }),
{
    reveal(Seq::filter);
    let all = Seq::new((n + 1) as nat, |i: int| i);
    assert(all.drop_last() =~= Seq::new(n as nat, |i: int| i));
    assert(all.last() == n);
}

/// A collapsed row before `i` that hides every row after it and before `i`.
spec fn hides_until(items: Seq<TreeItemView>, j: int, i: int) -> bool {
    0 <= j < i && collapsed(items[j]) && below(items, j, i - 1)
}

/// The rows that are shown, and their positions in `all_items`.
pub fn get_visible_items(all_items: &[TreeItem]) -> (r: (Vec<MibNode>, Vec<usize>))
    ensures
        node_views(r.0@) == visible_nodes(item_views(all_items@)),
        positions(r.1@) == visible_positions(item_views(all_items@)),
{
    let ghost items = item_views(all_items@);
    let mut visible_nodes: Vec<MibNode> = Vec::new();
    let mut visible_indices: Vec<usize> = Vec::new();
    let mut skip_indent: Option<i32> = None;
    let mut i: usize = 0;
    proof {
        reveal(Seq::filter);
        assert(positions(visible_indices@) =~= visible_before(items, 0));
        assert(node_views(visible_nodes@) =~= visible_before(items, 0).map_values(
            |i: int| shown(items[i]),
        ));
    }
    while i < all_items.len()
        invariant
            i <= all_items@.len(),
            items == item_views(all_items@),
            positions(visible_indices@) == visible_before(items, i as int),
            node_views(visible_nodes@) == visible_before(items, i as int).map_values(
                |i: int| shown(items[i]),
            ),
            match skip_indent {
                Some(level) => {
                    &&& exists|j: int| #[trigger]
                        hides_until(items, j, i as int) && items[j].indent == level
                    &&& forall|j: int| #[trigger]
                        hides_until(items, j, i as int) ==> items[j].indent >= level
                },
                None => forall|j: int| !(#[trigger] hides_until(items, j, i as int)),
            },
        decreases all_items@.len() - i,
    {
        let item = &all_items[i];
        let ghost at = i as int;
        assert(items[at] == item@);
        proof {
            lemma_visible_step(items, at);
            assert forall|j: int| 0 <= j < at && collapsed(items[j]) implies (#[trigger] below(
                items,
                j,
                at,
            ) <==> hides_until(items, j, at) && item@.indent > items[j].indent) by {
            }
            assert forall|j: int| #[trigger] hides_until(items, j, at + 1) implies j == at || (
            hides_until(items, j, at) && item@.indent > items[j].indent) by {
            }
        }
        if let Some(skip_level) = skip_indent {
            if item.indent > skip_level {
                proof {
                    let j = choose|j: int| #[trigger]
                        hides_until(items, j, at) && items[j].indent == skip_level;
                    assert(below(items, j, at));
                    assert(hides_until(items, j, at + 1));
                }
                i += 1;
                continue;
            } else {
                skip_indent = None;
            }
        }
        assert(!hidden(items, at));
        assert(forall|j: int| 0 <= j < at ==> !(#[trigger] hides_until(items, j, at + 1)));
        let ghost before = visible_before(items, at);
        let ghost nodes_before = visible_nodes@;
        let ghost indices_before = visible_indices@;
        let node = item.to_mib_node();
        visible_nodes.push(node);
        visible_indices.push(i);
        proof {
            assert(positions(visible_indices@) =~= positions(indices_before).push(at));
            assert(node_views(visible_nodes@) =~= node_views(nodes_before).push(shown(items[at])));
            assert(before.push(at).map_values(|i: int| shown(items[i])) =~= before.map_values(
                |i: int| shown(items[i]),
            ).push(shown(items[at])));
        }
        if item.has_children && !item.is_expanded {
            skip_indent = Some(item.indent);
            assert(hides_until(items, at, at + 1));
        }
        i += 1;
    }
    (visible_nodes, visible_indices)
}

/// The rows after row `p` was expanded or collapsed; a row without children stays as it is.
pub open spec fn toggled(items: Seq<TreeItemView>, p: int) -> Seq<TreeItemView> {
    if items[p].has_children {
        items.update(p, TreeItemView { is_expanded: !items[p].is_expanded, ..items[p] })
    } else {
        items
    }
}

/// The rows of a tree together with the positions of those that are shown.
pub struct TreeState {
    items: Vec<TreeItem>,
    indices: Vec<usize>,
}

impl View for TreeState {
    type V = Seq<TreeItemView>;

    /// All rows, shown or not.
    closed spec fn view(&self) -> Seq<TreeItemView> {
        item_views(self.items@)
    }
}

impl TreeState {
    #[verifier::type_invariant]
    spec fn well_formed(self) -> bool {
        positions(self.indices@) == visible_positions(item_views(self.items@))
    }

    /// Takes over the rows of a tree, and tells which are shown.
    pub fn new(items: Vec<TreeItem>) -> (r: (TreeState, Vec<MibNode>))
        ensures
            r.0@ == item_views(items@),
            node_views(r.1@) == visible_nodes(item_views(items@)),
    {
        let (nodes, indices) = get_visible_items(items.as_slice());
        (TreeState { items, indices }, nodes)
    }

    /// The position of the row that is shown as number `idx`.
    fn position(&self, idx: i32) -> (r: Option<usize>)
        ensures
            match r {
                Some(p) => {
                    &&& 0 <= idx < visible_positions(self@).len()
                    &&& p == visible_positions(self@)[idx as int]
                    &&& p < self@.len()
                },
                None => !(0 <= idx < visible_positions(self@).len()),
            },
    {
        proof {
            use_type_invariant(self);
            law_visible_positions(self@);
        }
        if idx >= 0 && (idx as usize) < self.indices.len() {
            let p = self.indices[idx as usize];
            proof {
                assert(positions(self.indices@)[idx as int] == p);
                assert(visible_positions(self@).contains(p as int));
            }
            Some(p)
        } else {
            None
        }
    }

    /// The properties of the row that is shown as number `idx`.
    pub fn click(&self, idx: i32) -> (r: Option<MibInfo>)
        ensures
            match r {
                Some(info) => {
                    &&& 0 <= idx < visible_positions(self@).len()
                    &&& info@ == self@[visible_positions(self@)[idx as int]].info
                },
                None => !(0 <= idx < visible_positions(self@).len()),
            },
    {
        match self.position(idx) {
            Some(p) => Some(self.items[p].info.clone()),
            None => None,
        }
    }

    /// Expands or collapses the row that is shown as number `idx`, and tells which rows are
    /// shown then.
    pub fn toggle(&mut self, idx: i32) -> (r: Option<Vec<MibNode>>)
        ensures
            match r {
                Some(nodes) => {
                    &&& 0 <= idx < visible_positions(old(self)@).len()
                    &&& final(self)@ == toggled(
                        old(self)@,
                        visible_positions(old(self)@)[idx as int],
                    )
                    &&& node_views(nodes@) == visible_nodes(final(self)@)
                },
                None => {
                    &&& !(0 <= idx < visible_positions(old(self)@).len())
                    &&& final(self)@ == old(self)@
                },
            },
    {
        match self.position(idx) {
            Some(p) => {
                let ghost before = self@;
                let (mut taken, _) = TreeState::new(Vec::new());
                std::mem::swap(self, &mut taken);
                let mut items = taken.items;
                if items[p].has_children {
                    let mut item = items[p].clone();
                    item.is_expanded = !item.is_expanded;
                    items.set(p, item);
                }
                assert(item_views(items@) =~= toggled(before, p as int));
                let (state, nodes) = TreeState::new(items);
                *self = state;
                Some(nodes)
            },
            None => None,
        }
    }
}

} // verus!
