//! Choosing and editing device profiles.

use vstd::prelude::*;

use crate::config::{Config, ConfigView, Profile, ProfileView};

verus! {

/// Row `idx` is one of the `rows` rows in which a window lists the profiles.
pub open spec fn listed(idx: int, rows: int) -> bool {
    0 <= idx < rows
}

/// The row that is selected once row `idx` of `rows` is gone: the next one, the last where there
/// is no next, and -1 where none is left.
pub open spec fn next_selected(idx: int, rows: int) -> int {
    if idx < rows - 1 {
        idx
    } else {
        rows - 2
    }
}

impl ConfigView {
    /// `idx` is the position of a profile.
    pub open spec fn has_profile(self, idx: int) -> bool {
        0 <= idx < self.profiles.len()
    }

    /// The active profile is one of the profiles, or none is active.
    pub open spec fn active_is_known(self) -> bool {
        self.active_profile.len() > 0 ==> exists|i: int|
            0 <= i < self.profiles.len() && (#[trigger] self.profiles[i]).name
                == self.active_profile
    }

    /// The settings after the profile at `idx` was replaced. The active profile stays active
    /// under its new name.
    pub open spec fn applied(self, idx: int, profile: ProfileView) -> ConfigView {
        ConfigView {
            profiles: self.profiles.update(idx, profile),
            active_profile: if self.profiles[idx].name == self.active_profile {
                profile.name
            } else {
                self.active_profile
            },
            ..self
        }
    }

    /// The settings after a new profile was added at the end.
    pub open spec fn with_new_profile(self) -> ConfigView {
        ConfigView {
            profiles: self.profiles.push(ProfileView::named("Unnamed Profile"@)),
            ..self
        }
    }

    /// The profile at `idx` can be deleted from a window with `rows` rows: it is there, and so is
    /// the profile that becomes active in its place. A window that was opened before profiles
    /// were deleted elsewhere may list rows that are not.
    pub open spec fn deletable(self, idx: int, rows: int) -> bool {
        &&& self.has_profile(idx)
        &&& self.profiles[idx].name == self.active_profile && rows > 1 ==> next_selected(idx, rows)
            < self.profiles.len() - 1
    }

    /// The settings after the profile at `idx` was deleted from a window with `rows` rows. Where
    /// it was active, the profile at the row that is selected next becomes active, or none where
    /// the window has no row left.
    pub open spec fn without_profile(self, idx: int, rows: int) -> ConfigView {
        let rest = self.profiles.remove(idx);
        ConfigView {
            profiles: rest,
            active_profile: if self.profiles[idx].name != self.active_profile {
                self.active_profile
            } else if rows == 1 {
                Seq::empty()
            } else {
                rest[next_selected(idx, rows)].name
            },
            ..self
        }
    }

    /// The copy of the profile at `idx`, under its own name.
    pub open spec fn copy_of(self, idx: int) -> ProfileView {
        ProfileView {
            name: "Duplicated of "@ + self.profiles[idx].name,
            ..self.profiles[idx]
        }
    }

    /// The settings after a copy of the profile at `idx` was put behind it.
    pub open spec fn with_duplicate(self, idx: int) -> ConfigView {
        ConfigView { profiles: self.profiles.insert(idx + 1, self.copy_of(idx)), ..self }
    }
}

impl Config {
    /// The names of the profiles, in order.
    pub fn profile_names(&self) -> (r: Vec<String>)
        ensures
            r@.map_values(|name: String| name@) == self@.profiles.map_values(
                |p: ProfileView| p.name,
            ),
    {
        let mut names: Vec<String> = Vec::new();
        let mut i: usize = 0;
        while i < self.profiles.len()
            invariant
                i <= self.profiles@.len(),
                names@.len() == i,
                forall|j: int| 0 <= j < i ==> (#[trigger] names@[j])@ == self.profiles@[j].name@,
            decreases self.profiles@.len() - i,
        {
            names.push(self.profiles[i].name.clone());
            i += 1;
        }
        assert(names@.map_values(|name: String| name@) =~= self@.profiles.map_values(
            |p: ProfileView| p.name,
        ));
        names
    }

    /// Makes the profile called `name` the active one.
    pub fn select_profile(&mut self, name: &str)
        ensures
            final(self)@ == (ConfigView { active_profile: name@, ..old(self)@ }),
    {
        self.active_profile = name.to_owned();
    }

    /// Replaces the profile at `idx`, where there is one. Tells whether `idx` selects a row at
    /// all, so that the settings are to be stored.
    pub fn apply_profile(&mut self, idx: i32, profile: &Profile) -> (r: bool)
        ensures
            r == (idx >= 0),
            final(self)@ == (if old(self)@.has_profile(idx as int) {
                old(self)@.applied(idx as int, profile@)
            } else {
                old(self)@
            }),
    {
        let ghost before = self@;
        if idx >= 0 && (idx as usize) < self.profiles.len() {
            let was_active = self.profiles[idx as usize].name == self.active_profile;
            self.profiles.set(idx as usize, profile.clone());
            if was_active {
                self.active_profile = profile.name.clone();
            }
            assert(self@.profiles =~= before.profiles.update(idx as int, profile@));
            assert(self@ == before.applied(idx as int, profile@));
        }
        idx >= 0
    }

    /// Adds a new profile at the end, from a window with `rows` rows. Gives the row that the
    /// window selects for it, and the profile. It does not become active.
    pub fn new_profile(&mut self, rows: usize) -> (r: (i32, Profile))
        requires
            rows <= i32::MAX,
        ensures
            r.0 == rows,
            r.1@ == ProfileView::named("Unnamed Profile"@),
            final(self)@ == old(self)@.with_new_profile(),
    {
        let ghost before = self@;
        let mut profile = Profile::default();
        profile.name = "Unnamed Profile".to_owned();
        self.profiles.push(profile.clone());
        assert(self@.profiles =~= before.profiles.push(profile@));
        (rows as i32, profile)
    }

    /// Tells whether the profile at `idx` can be deleted from a window with `rows` rows.
    pub fn deletable(&self, idx: i32, rows: usize) -> (r: bool)
        requires
            listed(idx as int, rows as int),
        ensures
            r == self@.deletable(idx as int, rows as int),
    {
        let at: usize = idx as usize;
        if at >= self.profiles.len() {
            return false;
        }
        if rows > 1 && self.profiles[at].name == self.active_profile {
            let next: usize = if at < rows - 1 {
                at
            } else {
                rows - 2
            };
            next < self.profiles.len() - 1
        } else {
            true
        }
    }

    /// Deletes the profile at row `idx` of a window with `rows` rows, and gives the row that is
    /// selected then; -1 stands for none. Nothing happens where the window has no such row.
    pub fn delete_profile(&mut self, idx: i32, rows: usize) -> (r: Option<i32>)
        requires
            rows <= i32::MAX,
            listed(idx as int, rows as int) ==> old(self)@.deletable(idx as int, rows as int),
        ensures
            match r {
                Some(selected) => {
                    &&& listed(idx as int, rows as int)
                    &&& selected == next_selected(idx as int, rows as int)
                    &&& final(self)@ == old(self)@.without_profile(idx as int, rows as int)
                },
                None => !listed(idx as int, rows as int) && final(self)@ == old(self)@,
            },
    {
        let ghost before = self@;
        if idx >= 0 && (idx as usize) < rows {
            let deleting_active = self.profiles[idx as usize].name == self.active_profile;
            let _ = self.profiles.remove(idx as usize);
            assert(self@.profiles =~= before.profiles.remove(idx as int));
            let new_count: usize = rows - 1;
            if new_count == 0 {
                if deleting_active {
                    self.active_profile = String::new();
                }
                assert(self@ == before.without_profile(idx as int, rows as int));
                Some(-1)
            } else {
                let new_idx: i32 = if idx as usize >= new_count {
                    (new_count - 1) as i32
                } else {
                    idx
                };
                if deleting_active {
                    self.active_profile = self.profiles[new_idx as usize].name.clone();
                }
                assert(self@ == before.without_profile(idx as int, rows as int));
                Some(new_idx)
            }
        } else {
            None
        }
    }

    /// Puts a copy of the profile at row `idx` of a window with `rows` rows behind it. Gives the
    /// row of the copy, and the copy. Nothing happens where the window has no such row.
    pub fn duplicate_profile(&mut self, idx: i32, rows: usize) -> (r: Option<(i32, Profile)>)
        requires
            rows <= i32::MAX,
            listed(idx as int, rows as int) ==> old(self)@.has_profile(idx as int),
        ensures
            match r {
                Some((selected, copy)) => {
                    &&& listed(idx as int, rows as int)
                    &&& selected == idx + 1
                    &&& copy@ == old(self)@.copy_of(idx as int)
                    &&& final(self)@ == old(self)@.with_duplicate(idx as int)
                },
                None => !listed(idx as int, rows as int) && final(self)@ == old(self)@,
            },
    {
        let ghost before = self@;
        if idx >= 0 && (idx as usize) < rows {
            let mut copy = self.profiles[idx as usize].clone();
            let mut name = "Duplicated of ".to_owned();
            name.append(copy.name.as_str());
            copy.name = name;
            let insert_idx: i32 = idx + 1;
            self.profiles.insert(insert_idx as usize, copy.clone());
            assert(self@.profiles =~= before.profiles.insert(idx + 1, copy@));
            assert(self@ == before.with_duplicate(idx as int));
            Some((insert_idx, copy))
        } else {
            None
        }
    }
}

/// Whatever is done to the profiles, the active profile stays one of them, or none is active.
pub proof fn law_active_profile_stays_known(
    config: ConfigView,
    idx: int,
    rows: int,
    profile: ProfileView,
)
    requires
        config.active_is_known(),
    ensures
        config.with_new_profile().active_is_known(),
        config.has_profile(idx) ==> config.applied(idx, profile).active_is_known(),
        listed(idx, rows) && config.deletable(idx, rows) ==> config.without_profile(
            idx,
            rows,
        ).active_is_known(),
        config.has_profile(idx) ==> config.with_duplicate(idx).active_is_known(),
        config.has_profile(idx) ==> (ConfigView {
            active_profile: config.profiles[idx].name,
            ..config
        }).active_is_known(),
{
    if config.active_profile.len() > 0 {
        let k = choose|k: int|
            0 <= k < config.profiles.len() && (#[trigger] config.profiles[k]).name
                == config.active_profile;
        let grown = config.with_new_profile();
        assert(grown.profiles[k].name == grown.active_profile);
        if config.has_profile(idx) {
            let applied = config.applied(idx, profile);
            if config.profiles[idx].name == config.active_profile {
                assert(applied.profiles[idx].name == applied.active_profile);
            } else {
                assert(applied.profiles[k].name == applied.active_profile);
            }
            let copied = config.with_duplicate(idx);
            if k <= idx {
                assert(copied.profiles[k].name == copied.active_profile);
            } else {
                assert(copied.profiles[k + 1].name == copied.active_profile);
            }
        }
    }
    if config.has_profile(idx) {
        let rest = config.without_profile(idx, rows);
        if config.profiles[idx].name != config.active_profile {
            if config.active_profile.len() > 0 {
                let k = choose|k: int|
                    0 <= k < config.profiles.len() && (#[trigger] config.profiles[k]).name
                        == config.active_profile;
                if k < idx {
                    assert(rest.profiles[k].name == rest.active_profile);
                } else {
                    assert(rest.profiles[k - 1].name == rest.active_profile);
                }
            }
        } else if listed(idx, rows) && config.deletable(idx, rows) && rows > 1 {
            let next = next_selected(idx, rows);
            assert(rest.profiles[next].name == rest.active_profile);
        }
        if config.active_profile.len() == 0 && config.profiles[idx].name.len() == 0 {
            let applied = config.applied(idx, profile);
            assert(config.profiles[idx].name =~= config.active_profile);
            assert(applied.profiles[idx].name == applied.active_profile);
        }
        let chosen = ConfigView { active_profile: config.profiles[idx].name, ..config };
        assert(chosen.profiles[idx].name == chosen.active_profile);
    }
}

/// Deleting a profile that was just added takes the settings back, from a window that lists all
/// profiles and unless a profile with the name of new profiles was active.
pub proof fn law_delete_undoes_new(config: ConfigView)
    requires
        config.active_profile != "Unnamed Profile"@,
    ensures
        ({
            let rows = config.profiles.len() as int;
            config.with_new_profile().without_profile(rows, rows + 1) == config
        }),
{
    let rows = config.profiles.len() as int;
    let back = config.with_new_profile().without_profile(rows, rows + 1);
    assert(back.profiles =~= config.profiles);
}

/// Deleting a copy takes the settings back, unless a profile with the copy's name was active.
pub proof fn law_delete_undoes_duplicate(config: ConfigView, idx: int, rows: int)
    requires
        config.has_profile(idx),
        listed(idx, rows),
        config.active_profile != "Duplicated of "@ + config.profiles[idx].name,
    ensures
        config.with_duplicate(idx).without_profile(idx + 1, rows + 1) == config,
{
    let back = config.with_duplicate(idx).without_profile(idx + 1, rows + 1);
    assert(back.profiles =~= config.profiles);
}

/// After a deletion the selected row is one of those left, unless none is left.
pub proof fn law_selection_after_delete(idx: int, rows: int)
    requires
        listed(idx, rows),
    ensures
        if rows == 1 {
            next_selected(idx, rows) == -1
        } else {
            listed(next_selected(idx, rows), rows - 1)
        },
{
}

/// From a window that lists all profiles every row can be deleted, and what is added or deleted
/// there leaves as many profiles as the window has rows.
pub proof fn law_full_list_stays_full(config: ConfigView, idx: int, profile: ProfileView)
    ensures
        ({
            let rows = config.profiles.len() as int;
            &&& config.with_new_profile().profiles.len() == rows + 1
            &&& listed(idx, rows) ==> {
                &&& config.deletable(idx, rows)
                &&& config.without_profile(idx, rows).profiles.len() == rows - 1
                &&& config.with_duplicate(idx).profiles.len() == rows + 1
                &&& config.applied(idx, profile).profiles.len() == rows
            }
        }),
{
}

/// Replacing a profile by itself changes nothing.
pub proof fn law_apply_same(config: ConfigView, idx: int)
    requires
        config.has_profile(idx),
    ensures
        config.applied(idx, config.profiles[idx]) == config,
{
    assert(config.applied(idx, config.profiles[idx]).profiles =~= config.profiles);
}

/// Of two replacements of one profile only the second counts, unless the first took the name of
/// the active profile from another one.
pub proof fn law_apply_twice(config: ConfigView, idx: int, first: ProfileView, second: ProfileView)
    requires
        config.has_profile(idx),
        first.name == config.active_profile ==> config.profiles[idx].name == config.active_profile,
    ensures
        config.applied(idx, first).applied(idx, second) == config.applied(idx, second),
{
    assert(config.applied(idx, first).applied(idx, second).profiles =~= config.applied(
        idx,
        second,
    ).profiles);
}

/// Applying a profile puts it in its place as it was given, and leaves the other profiles and the
/// MIB files as they were. The active profile changes exactly where it was the replaced one.
pub proof fn law_applied(config: ConfigView, idx: int, profile: ProfileView)
    requires
        config.has_profile(idx),
    ensures
        ({
            let after = config.applied(idx, profile);
            &&& after.profiles.len() == config.profiles.len()
            &&& after.profiles[idx] == profile
            &&& forall|i: int|
                0 <= i < config.profiles.len() && i != idx ==> #[trigger] after.profiles[i]
                    == config.profiles[i]
            &&& config.active_profile == config.profiles[idx].name ==> after.active_profile
                == profile.name
            &&& config.active_profile != config.profiles[idx].name ==> after.active_profile
                == config.active_profile
            &&& after.mibs == config.mibs
        }),
{
}

/// A new profile comes last, has a name and nothing else, and changes nothing else.
pub proof fn law_new_profile(config: ConfigView)
    ensures
        ({
            let after = config.with_new_profile();
            let new = after.profiles[config.profiles.len() as int];
            &&& after.profiles.len() == config.profiles.len() + 1
            &&& forall|i: int|
                0 <= i < config.profiles.len() ==> #[trigger] after.profiles[i]
                    == config.profiles[i]
            &&& new.name == "Unnamed Profile"@
            &&& new.host.len() == 0
            &&& new.version.len() == 0
            &&& new.community.len() == 0
            &&& new.security_engine_id.len() == 0
            &&& new.context_engine_id.len() == 0
            &&& new.security_level.len() == 0
            &&& new.auth_protocol.len() == 0
            &&& new.auth_passphrase.len() == 0
            &&& new.privacy_protocol.len() == 0
            &&& new.privacy_passphrase.len() == 0
            &&& after.active_profile == config.active_profile
            &&& after.mibs == config.mibs
        }),
{
}

/// Deleting a profile moves those behind it up by one and changes no other. The active profile
/// changes exactly where it was deleted: to the one at the next row, which is the same row or,
/// from the last row, the one before, and to none where the window has no other row.
pub proof fn law_deleted(config: ConfigView, idx: int, rows: int)
    requires
        listed(idx, rows),
        config.deletable(idx, rows),
    ensures
        ({
            let after = config.without_profile(idx, rows);
            &&& after.profiles.len() == config.profiles.len() - 1
            &&& forall|i: int|
                0 <= i < after.profiles.len() ==> #[trigger] after.profiles[i] == (if i < idx {
                    config.profiles[i]
                } else {
                    config.profiles[i + 1]
                })
            &&& config.active_profile != config.profiles[idx].name ==> after.active_profile
                == config.active_profile
            &&& config.active_profile == config.profiles[idx].name && rows == 1
                ==> after.active_profile.len() == 0
            &&& config.active_profile == config.profiles[idx].name && rows > 1 && idx + 1 < rows
                ==> after.active_profile == config.profiles[idx + 1].name
            &&& config.active_profile == config.profiles[idx].name && rows > 1 && idx + 1 == rows
                ==> after.active_profile == config.profiles[idx - 1].name
            &&& after.mibs == config.mibs
        }),
{
}

/// After a deletion the same row is selected or, from the last row, the one before; with no other
/// row, none.
pub proof fn law_next_selected(idx: int, rows: int)
    requires
        listed(idx, rows),
    ensures
        0 <= idx < rows,
        idx + 1 < rows ==> next_selected(idx, rows) == idx,
        idx + 1 == rows ==> next_selected(idx, rows) == idx - 1,
{
}

/// A profile can be deleted exactly where it is there and the one that would become active is.
pub proof fn law_deletable(config: ConfigView, idx: int, rows: int)
    requires
        0 <= idx < rows,
    ensures
        listed(idx, rows),
        config.deletable(idx, rows) <==> {
            &&& idx < config.profiles.len()
            &&& config.active_profile == config.profiles[idx].name && idx + 1 < rows ==> idx + 1
                < config.profiles.len()
        },
{
}

/// A copy stands behind its original and differs from it in its name alone; nothing else changes.
pub proof fn law_duplicated(config: ConfigView, idx: int)
    requires
        config.has_profile(idx),
    ensures
        ({
            let after = config.with_duplicate(idx);
            let source = config.profiles[idx];
            let copy = after.profiles[idx + 1];
            &&& after.profiles.len() == config.profiles.len() + 1
            &&& forall|i: int|
                0 <= i < after.profiles.len() && i != idx + 1 ==> #[trigger] after.profiles[i] == (
                if i <= idx {
                    config.profiles[i]
                } else {
                    config.profiles[i - 1]
                })
            &&& copy == config.copy_of(idx)
            &&& copy.name == "Duplicated of "@ + source.name
            &&& copy.host == source.host
            &&& copy.version == source.version
            &&& copy.community == source.community
            &&& copy.security_engine_id == source.security_engine_id
            &&& copy.context_engine_id == source.context_engine_id
            &&& copy.security_level == source.security_level
            &&& copy.auth_protocol == source.auth_protocol
            &&& copy.auth_passphrase == source.auth_passphrase
            &&& copy.privacy_protocol == source.privacy_protocol
            &&& copy.privacy_passphrase == source.privacy_passphrase
            &&& after.active_profile == config.active_profile
            &&& after.mibs == config.mibs
        }),
{
}

/// A position holds a profile exactly where it is one of the list.
pub proof fn law_has_profile(config: ConfigView, idx: int, rows: int)
    ensures
        config.has_profile(idx) <==> 0 <= idx < config.profiles.len(),
        listed(idx, rows) <==> 0 <= idx < rows,
{
}

} // verus!
