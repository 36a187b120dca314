//! The list of MIB files that are loaded.

use vstd::prelude::*;

use crate::config::{Config, ConfigView};
use crate::text::texts;

verus! {

/// A loaded MIB file in the list of files that can be unloaded.
pub struct UnloadMibItem {
    pub path: String,
    pub checked: bool,
}

/// The contents of an `UnloadMibItem`.
pub struct UnloadMibItemView {
    pub path: Seq<char>,
    pub checked: bool,
}

impl View for UnloadMibItem {
    type V = UnloadMibItemView;

    open spec fn view(&self) -> UnloadMibItemView {
        UnloadMibItemView { path: self.path@, checked: self.checked }
    }
}

/// The list held by `items`.
pub open spec fn unload_views(items: Seq<UnloadMibItem>) -> Seq<UnloadMibItemView> {
    items.map_values(|item: UnloadMibItem| item@)
}

/// `paths` followed by those of `picked` that it did not hold yet, each once.
pub open spec fn added(paths: Seq<Seq<char>>, picked: Seq<Seq<char>>) -> Seq<Seq<char>>
    decreases picked.len(),
{
    if picked.len() == 0 {
        paths
    } else {
        let before = added(paths, picked.drop_last());
        if before.contains(picked.last()) {
            before
        } else {
            before.push(picked.last())
        }
    }
}

/// `paths` without those in `gone`.
pub open spec fn removed(paths: Seq<Seq<char>>, gone: Seq<Seq<char>>) -> Seq<Seq<char>> {
    paths.filter(|path: Seq<char>| !gone.contains(path))
}

/// The paths that are checked, in order.
pub open spec fn checked_paths(items: Seq<UnloadMibItemView>) -> Seq<Seq<char>> {
    items.filter(|item: UnloadMibItemView| item.checked).map_values(
        |item: UnloadMibItemView| item.path,
    )
}

/// Tells whether `paths` holds `path`.
fn holds(paths: &Vec<String>, path: &String) -> (r: bool)
    ensures
        r == texts(paths@).contains(path@),
{
    let mut i: usize = 0;
    while i < paths.len()
        invariant
            i <= paths@.len(),
            forall|j: int| 0 <= j < i ==> (#[trigger] texts(paths@)[j]) != path@,
        decreases paths@.len() - i,
    {
        assert(texts(paths@)[i as int] == paths@[i as int]@);
        if paths[i] == *path {
            return true;
        }
        i += 1;
    }
    false
}

/// The paths that are checked.
fn read_checked(items: &Vec<UnloadMibItem>) -> (r: Vec<String>)
    ensures
        texts(r@) == checked_paths(unload_views(items@)),
{
    let ghost all = unload_views(items@);
    let ghost is_checked = |item: UnloadMibItemView| item.checked;
    let mut paths: Vec<String> = Vec::new();
    let mut i: usize = 0;
    proof {
        reveal(Seq::filter);
        assert(texts(paths@) =~= checked_paths(all.take(0)));
    }
    while i < items.len()
        invariant
            i <= items@.len(),
            all == unload_views(items@),
            texts(paths@) == checked_paths(all.take(i as int)),
        decreases items@.len() - i,
    {
        let ghost before = paths@;
        proof {
            reveal(Seq::filter);
            assert(all[i as int] == items@[i as int]@);
            assert(all.take(i + 1).drop_last() =~= all.take(i as int));
        }
        if items[i].checked {
            paths.push(items[i].path.clone());
            proof {
                assert(texts(paths@) =~= texts(before).push(items@[i as int].path@));
                assert(checked_paths(all.take(i + 1)) =~= checked_paths(all.take(i as int)).push(
                    items@[i as int].path@,
                ));
            }
        }
        i += 1;
    }
    assert(all.take(items@.len() as int) =~= all);
    paths
}

impl Config {
    /// The loaded MIB files, none of them checked.
    pub fn unload_items(&self) -> (r: Vec<UnloadMibItem>)
        ensures
            unload_views(r@) == self@.mibs.map_values(
                |path: Seq<char>| UnloadMibItemView { path, checked: false },
            ),
    {
        let mut items: Vec<UnloadMibItem> = Vec::new();
        let mut i: usize = 0;
        while i < self.mibs.len()
            invariant
                i <= self.mibs@.len(),
                items@.len() == i,
                forall|j: int|
                    0 <= j < i ==> (#[trigger] items@[j])@ == (UnloadMibItemView {
                        path: self.mibs@[j]@,
                        checked: false,
                    }),
            decreases self.mibs@.len() - i,
        {
            items.push(UnloadMibItem { path: self.mibs[i].clone(), checked: false });
            i += 1;
        }
        assert(unload_views(items@) =~= self@.mibs.map_values(
            |path: Seq<char>| UnloadMibItemView { path, checked: false },
        ));
        items
    }

    /// Adds the picked MIB files that are not loaded yet. Tells whether any were picked, so that
    /// the tree is to be built anew.
    pub fn add_mibs(&mut self, picked: &Vec<String>) -> (r: bool)
        ensures
            r == (picked@.len() > 0),
            final(self)@ == (ConfigView {
                mibs: added(old(self)@.mibs, texts(picked@)),
                ..old(self)@
            }),
            !r ==> final(self)@ == old(self)@,
    {
        let ghost before = self@;
        let ghost wanted = texts(picked@);
        let mut i: usize = 0;
        assert(self@.mibs =~= texts(self.mibs@));
        while i < picked.len()
            invariant
                i <= picked@.len(),
                wanted == texts(picked@),
                texts(self.mibs@) == added(before.mibs, wanted.take(i as int)),
                self@.active_profile == before.active_profile,
                self@.profiles == before.profiles,
            decreases picked@.len() - i,
        {
            assert(wanted.take(i + 1).drop_last() =~= wanted.take(i as int));
            assert(wanted.take(i + 1).last() == picked@[i as int]@);
            let ghost paths = self.mibs@;
            if !holds(&self.mibs, &picked[i]) {
                self.mibs.push(picked[i].clone());
                assert(texts(self.mibs@) =~= texts(paths).push(picked@[i as int]@));
            }
            i += 1;
        }
        assert(wanted.take(picked@.len() as int) =~= wanted);
        assert(self@.mibs =~= texts(self.mibs@));
        picked.len() > 0
    }

    /// Removes the MIB files that are checked. Tells whether any were, so that the tree is to be
    /// built anew.
    pub fn remove_mibs(&mut self, items: &Vec<UnloadMibItem>) -> (r: bool)
        ensures
            r == (checked_paths(unload_views(items@)).len() > 0),
            final(self)@ == (ConfigView {
                mibs: removed(old(self)@.mibs, checked_paths(unload_views(items@))),
                ..old(self)@
            }),
            !r ==> final(self)@ == old(self)@,
    {
        let ghost before = self@;
        let to_remove = read_checked(items);
        let ghost gone = texts(to_remove@);
        let ghost stays = |path: Seq<char>| !gone.contains(path);
        let mut kept: Vec<String> = Vec::new();
        let mut i: usize = 0;
        proof {
            reveal(Seq::filter);
            assert(texts(kept@) =~= before.mibs.take(0).filter(stays));
        }
        while i < self.mibs.len()
            invariant
                i <= self.mibs@.len(),
                self@ == before,
                gone == texts(to_remove@),
                stays == (|path: Seq<char>| !gone.contains(path)),
                texts(kept@) == before.mibs.take(i as int).filter(stays),
            decreases self.mibs@.len() - i,
        {
            let ghost so_far = kept@;
            proof {
                reveal(Seq::filter);
                assert(before.mibs[i as int] == self.mibs@[i as int]@);
                assert(before.mibs.take(i + 1).drop_last() =~= before.mibs.take(i as int));
            }
            if !holds(&to_remove, &self.mibs[i]) {
                kept.push(self.mibs[i].clone());
                assert(texts(kept@) =~= texts(so_far).push(self.mibs@[i as int]@));
            }
            i += 1;
        }
        assert(before.mibs.take(self.mibs@.len() as int) =~= before.mibs);
        self.mibs = kept;
        assert(self@.mibs =~= texts(kept@));
        proof {
            if gone.len() == 0 {
                lemma_filter_start(before.mibs, before.mibs.len() as int, gone);
                assert(before.mibs.take(before.mibs.len() as int) =~= before.mibs);
            }
        }
        to_remove.len() > 0
    }
}

/// Loading more files keeps the loaded ones in place, and adds the picked ones and no others.
pub proof fn law_added(paths: Seq<Seq<char>>, picked: Seq<Seq<char>>)
    ensures
        added(paths, picked).len() >= paths.len(),
        added(paths, picked).take(paths.len() as int) == paths,
        forall|path: Seq<char>| #[trigger]
            added(paths, picked).contains(path) <==> paths.contains(path) || picked.contains(path),
        paths.no_duplicates() ==> added(paths, picked).no_duplicates(),
    decreases picked.len(),
{
    let all = added(paths, picked);
    if picked.len() > 0 {
        let fewer = picked.drop_last();
        let last = picked.last();
        law_added(paths, fewer);
        let before = added(paths, fewer);
        assert(all.take(paths.len() as int) =~= before.take(paths.len() as int));
        assert forall|path: Seq<char>| #[trigger] all.contains(path) <==> paths.contains(path)
            || picked.contains(path) by {
            if fewer.contains(path) {
                let i = choose|i: int| 0 <= i < fewer.len() && fewer[i] == path;
                assert(picked[i] == path);
            }
            if picked.contains(path) && path != last {
                let i = choose|i: int| 0 <= i < picked.len() && picked[i] == path;
                assert(fewer[i] == path);
            }
            assert(picked[picked.len() - 1] == last);
            if before.contains(path) && !before.contains(last) {
                let i = choose|i: int| 0 <= i < before.len() && before[i] == path;
                assert(all[i] == path);
            }
            if all.contains(path) && path != last && !before.contains(last) {
                let i = choose|i: int| 0 <= i < all.len() && all[i] == path;
                assert(before[i] == path);
            }
            if !before.contains(last) {
                assert(all[before.len() as int] == last);
            }
        }
        if paths.no_duplicates() && !before.contains(last) {
            assert forall|i: int, j: int| 0 <= i < all.len() && 0 <= j < all.len() && i
                != j implies all[i] != all[j] by {
                if i == before.len() {
                    assert(before.contains(before[j]));
                } else if j == before.len() {
                    assert(before.contains(before[i]));
                } else {
                    assert(before[i] != before[j]);
                }
            }
        }
    } else {
        assert(all.take(paths.len() as int) =~= paths);
    }
}

proof fn lemma_nothing_added(paths: Seq<Seq<char>>, picked: Seq<Seq<char>>)
    requires
        forall|i: int| 0 <= i < picked.len() ==> paths.contains(#[trigger] picked[i]),
    ensures
        added(paths, picked) == paths,
    decreases picked.len(),
{
    if picked.len() > 0 {
        lemma_nothing_added(paths, picked.drop_last());
        assert(paths.contains(picked[picked.len() - 1]));
    }
}

/// Loading the same files again changes nothing.
pub proof fn law_load_again(paths: Seq<Seq<char>>, picked: Seq<Seq<char>>)
    ensures
        added(added(paths, picked), picked) == added(paths, picked),
{
    law_added(paths, picked);
    assert forall|i: int| 0 <= i < picked.len() implies added(paths, picked).contains(
        #[trigger] picked[i],
    ) by {
        assert(picked.contains(picked[i]));
    }
    lemma_nothing_added(added(paths, picked), picked);
}

/// Unloading removes the files that were checked and no others.
pub proof fn law_removed(paths: Seq<Seq<char>>, gone: Seq<Seq<char>>)
    ensures
        forall|path: Seq<char>| #[trigger]
            removed(paths, gone).contains(path) <==> paths.contains(path) && !gone.contains(path),
        paths.no_duplicates() ==> removed(paths, gone).no_duplicates(),
    decreases paths.len(),
{
    reveal(Seq::filter);
    let rest = removed(paths, gone);
    if paths.len() > 0 {
        let fewer = paths.drop_last();
        let last = paths.last();
        law_removed(fewer, gone);
        let before = removed(fewer, gone);
        assert(paths[paths.len() - 1] == last);
        assert forall|path: Seq<char>| #[trigger] rest.contains(path) <==> paths.contains(path)
            && !gone.contains(path) by {
            if fewer.contains(path) {
                let i = choose|i: int| 0 <= i < fewer.len() && fewer[i] == path;
                assert(paths[i] == path);
            }
            if paths.contains(path) && path != last {
                let i = choose|i: int| 0 <= i < paths.len() && paths[i] == path;
                assert(fewer[i] == path);
            }
            if !gone.contains(last) {
                assert(rest == before.push(last));
                assert(rest[before.len() as int] == last);
                if before.contains(path) {
                    let i = choose|i: int| 0 <= i < before.len() && before[i] == path;
                    assert(rest[i] == path);
                }
                if rest.contains(path) && path != last {
                    let i = choose|i: int| 0 <= i < rest.len() && rest[i] == path;
                    assert(before[i] == path);
                }
            }
        }
        if paths.no_duplicates() {
            assert(fewer.no_duplicates()) by {
                assert forall|i: int, j: int| 0 <= i < fewer.len() && 0 <= j < fewer.len() && i
                    != j implies fewer[i] != fewer[j] by {
                    assert(paths[i] != paths[j]);
                }
            }
            if !gone.contains(last) {
                assert(!before.contains(last)) by {
                    if fewer.contains(last) {
                        let i = choose|i: int| 0 <= i < fewer.len() && fewer[i] == last;
                        assert(paths[i] == paths[paths.len() - 1]);
                    }
                }
                assert forall|i: int, j: int| 0 <= i < rest.len() && 0 <= j < rest.len() && i
                    != j implies rest[i] != rest[j] by {
                    if i == before.len() {
                        assert(before.contains(before[j]));
                    } else if j == before.len() {
                        assert(before.contains(before[i]));
                    } else {
                        assert(before[i] != before[j]);
                    }
                }
            }
        }
    }
}

/// Unloading files that were just loaded, none of which was loaded before, takes the list back.
pub proof fn law_unload_undoes_load(paths: Seq<Seq<char>>, picked: Seq<Seq<char>>)
    requires
        forall|i: int| 0 <= i < paths.len() ==> !picked.contains(#[trigger] paths[i]),
    ensures
        removed(added(paths, picked), picked) == paths,
{
    law_added(paths, picked);
    let all = added(paths, picked);
    assert forall|i: int| paths.len() <= i < all.len() implies picked.contains(#[trigger] all[i]) by {
        lemma_added_tail(paths, picked, i);
    }
    assert forall|i: int| 0 <= i < paths.len() implies #[trigger] all[i] == paths[i] by {
        assert(all.take(paths.len() as int)[i] == paths[i]);
    }
    lemma_filter_start(all, paths.len() as int, picked);
}

proof fn lemma_added_tail(paths: Seq<Seq<char>>, picked: Seq<Seq<char>>, i: int)
    requires
        paths.len() <= i < added(paths, picked).len(),
    ensures
        picked.contains(added(paths, picked)[i]),
    decreases picked.len(),
{
    if picked.len() > 0 {
        let fewer = picked.drop_last();
        let before = added(paths, fewer);
        if i < before.len() {
            lemma_added_tail(paths, fewer, i);
            let k = choose|k: int| 0 <= k < fewer.len() && fewer[k] == before[i];
            assert(picked[k] == before[i]);
        } else {
            assert(picked[picked.len() - 1] == picked.last());
        }
    }
}

proof fn lemma_filter_start(all: Seq<Seq<char>>, n: int, gone: Seq<Seq<char>>)
    requires
        0 <= n <= all.len(),
        forall|i: int| 0 <= i < n ==> !gone.contains(#[trigger] all[i]),
        forall|i: int| n <= i < all.len() ==> gone.contains(#[trigger] all[i]),
    ensures
        removed(all, gone) == all.take(n),
    decreases all.len(),
{
    reveal(Seq::filter);
    if all.len() > 0 {
        let fewer = all.drop_last();
        if n == all.len() {
            lemma_filter_start(fewer, n - 1, gone);
            assert(fewer.take(n - 1).push(all.last()) =~= all.take(n));
        } else {
            lemma_filter_start(fewer, n, gone);
            assert(fewer.take(n) =~= all.take(n));
        }
    } else {
        assert(all.take(n) =~= all);
    }
}

/// Files picked in two steps are added like those picked at once; a single file is added at the
/// end, unless it is there.
pub proof fn law_added_one_by_one(
    paths: Seq<Seq<char>>,
    first: Seq<Seq<char>>,
    second: Seq<Seq<char>>,
    path: Seq<char>,
)
    ensures
        added(paths, Seq::empty()) == paths,
        added(paths, seq![path]) == (if paths.contains(path) {
            paths
        } else {
            paths.push(path)
        }),
        added(paths, first + second) == added(added(paths, first), second),
    decreases second.len(),
{
    assert(seq![path].drop_last() =~= Seq::empty());
    assert(added(paths, seq![path].drop_last()) == paths);
    if second.len() > 0 {
        law_added_one_by_one(paths, first, second.drop_last(), path);
        assert((first + second).drop_last() =~= first + second.drop_last());
    } else {
        assert(first + second =~= first);
    }
}

/// Of two lists the files that stay are those that stay of each, in their order; a single file
/// stays exactly where it is not among those to remove.
pub proof fn law_removed_one_by_one(
    first: Seq<Seq<char>>,
    second: Seq<Seq<char>>,
    path: Seq<char>,
    gone: Seq<Seq<char>>,
)
    ensures
        removed(Seq::empty(), gone) == Seq::<Seq<char>>::empty(),
        removed(seq![path], gone) == (if gone.contains(path) {
            Seq::empty()
        } else {
            seq![path]
        }),
        removed(first + second, gone) == removed(first, gone) + removed(second, gone),
{
    let stays = |path: Seq<char>| !gone.contains(path);
    Seq::filter_distributes_over_add(first, second, stays);
    assert(seq![path].drop_last() =~= Seq::empty());
    reveal(Seq::filter);
    reveal_with_fuel(Seq::filter, 2);
    assert(removed(seq![path].drop_last(), gone) =~= Seq::empty());
    assert(removed(seq![path], gone) =~= if gone.contains(path) {
        Seq::empty()
    } else {
        seq![path]
    });
}

/// Of two lists the checked paths are those of each, in their order; a single item gives its path
/// exactly where it is checked.
pub proof fn law_checked_one_by_one(
    first: Seq<UnloadMibItemView>,
    second: Seq<UnloadMibItemView>,
    item: UnloadMibItemView,
)
    ensures
        checked_paths(Seq::empty()) == Seq::<Seq<char>>::empty(),
        checked_paths(seq![item]) == (if item.checked {
            seq![item.path]
        } else {
            Seq::empty()
        }),
        checked_paths(first + second) == checked_paths(first) + checked_paths(second),
{
    let marked = |item: UnloadMibItemView| item.checked;
    Seq::filter_distributes_over_add(first, second, marked);
    reveal(Seq::filter);
    let one = seq![item];
    assert(one.drop_last() =~= Seq::empty());
    assert(one.drop_last().filter(marked) =~= Seq::empty());
    assert(checked_paths(one) =~= if item.checked {
        seq![item.path]
    } else {
        Seq::empty()
    });
    assert(checked_paths(Seq::empty()) =~= Seq::empty());
    assert(checked_paths(first + second) =~= checked_paths(first) + checked_paths(second));
}

/// A path is among the checked ones exactly where an item with that path is checked.
pub proof fn law_checked_paths(items: Seq<UnloadMibItemView>, path: Seq<char>)
    ensures
        checked_paths(items).contains(path) <==> exists|i: int|
            0 <= i < items.len() && (#[trigger] items[i]).checked && items[i].path == path,
    decreases items.len(),
{
    if items.len() > 0 {
        let fewer = items.drop_last();
        let last = items.last();
        law_checked_paths(fewer, path);
        law_checked_one_by_one(fewer, seq![last], last);
        assert(fewer + seq![last] =~= items);
        let all = checked_paths(items);
        let before = checked_paths(fewer);
        let end = checked_paths(seq![last]);
        assert(all == before + end);
        if before.contains(path) {
            let k = choose|k: int| 0 <= k < before.len() && before[k] == path;
            assert(all[k] == path);
            let i = choose|i: int|
                0 <= i < fewer.len() && (#[trigger] fewer[i]).checked && fewer[i].path == path;
            assert(items[i] == fewer[i]);
        }
        if last.checked && last.path == path {
            assert(end[0] == path);
            assert(all[before.len() as int] == path);
            assert(items[items.len() - 1] == last);
        }
        if all.contains(path) && !before.contains(path) {
            let k = choose|k: int| 0 <= k < all.len() && all[k] == path;
            if k < before.len() {
                assert(before[k] == path);
            }
            assert(end[k - before.len()] == path);
            assert(last.checked && last.path == path);
            assert(items[items.len() - 1] == last);
        }
        if exists|i: int|
            0 <= i < items.len() && (#[trigger] items[i]).checked && items[i].path == path {
            let i = choose|i: int|
                0 <= i < items.len() && (#[trigger] items[i]).checked && items[i].path == path;
            if i < fewer.len() {
                assert(fewer[i] == items[i]);
                assert(before.contains(path));
            }
        }
    } else {
        law_checked_one_by_one(items, items, UnloadMibItemView { path, checked: false });
        assert(items =~= Seq::empty());
    }
}

/// After unloading a path is left exactly where it was loaded and no checked item has it.
pub proof fn law_unload_removes_checked(
    paths: Seq<Seq<char>>,
    items: Seq<UnloadMibItemView>,
    path: Seq<char>,
)
    ensures
        removed(paths, checked_paths(items)).contains(path) <==> paths.contains(path) && !(exists|
            i: int,
        |
            0 <= i < items.len() && (#[trigger] items[i]).checked && items[i].path == path),
{
    law_removed(paths, checked_paths(items));
    law_checked_paths(items, path);
}

/// The list of files to unload is taken over item by item.
pub proof fn law_unload_list(items: Seq<UnloadMibItem>)
    ensures
        unload_views(items).len() == items.len(),
        forall|i: int|
            0 <= i < items.len() ==> {
                let item = #[trigger] unload_views(items)[i];
                item.path == items[i].path@ && item.checked == items[i].checked
            },
{
}

} // verus!
