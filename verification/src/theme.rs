//! Theme lifecycle records: the same snapshot-diffing state machine as for
//! plugins, keyed by the theme's name.

use vstd::prelude::*;

use crate::commit::{Commit, StringCommit};
use crate::common::{ChangeView, EntryChange, EntryChangeDataPoint};
use crate::date::Date;
use crate::input_data::{change_of, spec_theme_changes, ObsCommunityTheme, ThemeEntryView};
use crate::plugin::changes_view;

verus! {

/// One full snapshot of the theme registry, tied to the commit it was read
/// at.
#[derive(Debug)]
pub struct ThemeList {
    pub entries: Vec<ObsCommunityTheme>,
    pub commit: Commit,
}

/// The first entry of the list with this name, if any.
pub open spec fn spec_find_theme(s: Seq<ThemeEntryView>, name: Seq<char>) -> Option<ThemeEntryView>
    decreases s.len(),
{
    if s.len() == 0 {
        Option::None
    } else if s[0].name == name {
        Option::Some(s[0])
    } else {
        spec_find_theme(s.skip(1), name)
    }
}

pub open spec fn theme_entry_views(entries: Seq<ObsCommunityTheme>) -> Seq<ThemeEntryView> {
    entries.map_values(|e: ObsCommunityTheme| e@)
}

/// Index of the first entry with this name, or the length when absent.
fn find_theme_index(entries: &Vec<ObsCommunityTheme>, name: &str) -> (r: usize)
    ensures
        r <= entries@.len(),
        r == entries@.len() ==> spec_find_theme(theme_entry_views(entries@), name@) is None,
        r < entries@.len() ==> entries@[r as int]@.name == name@ && spec_find_theme(
            theme_entry_views(entries@),
            name@,
        ) == Option::Some(entries@[r as int]@),
{
    let ghost views = theme_entry_views(entries@);
    let mut i: usize = 0;
    proof {
        assert(views.skip(0) =~= views);
    }
    while i < entries.len()
        invariant
            i <= entries@.len(),
            views == theme_entry_views(entries@),
            spec_find_theme(views, name@) == spec_find_theme(views.skip(i as int), name@),
        decreases entries@.len() - i,
    {
        proof {
            assert(views.skip(i as int)[0] == views[i as int]);
            assert(views.skip(i as int).skip(1) =~= views.skip(i + 1));
        }
        if crate::digits::str_eq(entries[i].name.as_str(), name) {
            return i;
        }
        i = i + 1;
    }
    proof {
        assert(views.skip(views.len() as int) =~= Seq::<ThemeEntryView>::empty());
    }
    entries.len()
}

/// The reconstructed lifecycle of one theme.
#[derive(Debug)]
pub struct ThemeData {
    pub id: String,
    pub name: String,
    pub added_commit: Commit,
    pub removed_commit: Option<Commit>,
    pub initial_entry: ObsCommunityTheme,
    pub current_entry: ObsCommunityTheme,
    pub change_history: Vec<EntryChange>,
}

impl ThemeData {
    /// A fresh record for a theme first seen in this snapshot.
    pub fn new(id: String, name: String, added_commit: &Commit, initial_entry: &ObsCommunityTheme)
        -> (r: ThemeData)
        ensures
            r.id@ == id@,
            r.name@ == name@,
            r.added_commit.date == added_commit.date,
            r.added_commit.hash@ == added_commit.hash@,
            r.removed_commit is None,
            r.initial_entry@ == initial_entry@,
            r.current_entry@ == initial_entry@,
            changes_view(r.change_history@) =~~= seq![
                change_of("Theme Added"@, *added_commit, ""@, ""@),
            ],
    {
        proof {
            reveal_strlit("");
            assert(""@ =~= Seq::<char>::empty());
        }
        let mut change_history: Vec<EntryChange> = Vec::new();
        change_history.push(
            EntryChange {
                property: String::from_str("Theme Added"),
                commit: added_commit.clone(),
                old_value: String::new(),
                new_value: String::new(),
            },
        );
        ThemeData {
            id,
            name,
            added_commit: added_commit.clone(),
            removed_commit: None,
            initial_entry: initial_entry.clone(),
            current_entry: initial_entry.clone(),
            change_history,
        }
    }

    /// Drives the per-theme state machine one snapshot forward; the same
    /// transitions as for plugins, with the theme's field set.
    pub fn find_changes(&mut self, theme_list: &ThemeList)
        ensures
            final(self).id == old(self).id,
            final(self).name == old(self).name,
            final(self).added_commit == old(self).added_commit,
            final(self).initial_entry == old(self).initial_entry,
            final(self).change_history@.subrange(0, old(self).change_history@.len() as int)
                == old(self).change_history@,
            match spec_find_theme(theme_entry_views(theme_list.entries@), old(self).name@) {
                Option::None => {
                    &&& final(self).current_entry == old(self).current_entry
                    &&& final(self).removed_commit is Some
                    &&& match old(self).removed_commit {
                        Option::Some(_) => *final(self) == *old(self),
                        Option::None => {
                            &&& match final(self).removed_commit {
                                Option::Some(c) => c.date == theme_list.commit.date && c.hash@
                                    == theme_list.commit.hash@,
                                Option::None => false,
                            }
                            &&& changes_view(final(self).change_history@) =~~= changes_view(
                                old(self).change_history@,
                            ).push(change_of("Theme Removed"@, theme_list.commit, ""@, ""@))
                        },
                    }
                },
                Option::Some(new_entry) => {
                    &&& final(self).removed_commit is None
                    &&& final(self).current_entry@ == new_entry
                    &&& changes_view(final(self).change_history@) =~~= changes_view(
                        old(self).change_history@,
                    ) + (match old(self).removed_commit {
                        Option::Some(_) => seq![
                            change_of("Theme Re-Added"@, theme_list.commit, ""@, ""@),
                        ],
                        Option::None => Seq::<ChangeView>::empty(),
                    }) + spec_theme_changes(
                        old(self).current_entry@,
                        new_entry,
                        theme_list.commit,
                    )
                },
            },
    {
        proof {
            reveal_strlit("");
            assert(""@ =~= Seq::<char>::empty());
        }
        let idx = find_theme_index(&theme_list.entries, self.name.as_str());
        if idx == theme_list.entries.len() {
            if self.removed_commit.is_none() {
                self.removed_commit = Some(theme_list.commit.clone());
                self.change_history.push(
                    EntryChange {
                        property: String::from_str("Theme Removed"),
                        commit: theme_list.commit.clone(),
                        old_value: String::new(),
                        new_value: String::new(),
                    },
                );
            }
            return ;
        }
        let new_entry = &theme_list.entries[idx];
        if self.removed_commit.is_some() {
            self.removed_commit = None;
            self.change_history.push(
                EntryChange {
                    property: String::from_str("Theme Re-Added"),
                    commit: theme_list.commit.clone(),
                    old_value: String::new(),
                    new_value: String::new(),
                },
            );
        }
        let mut diffs = self.current_entry.compare(new_entry, &theme_list.commit);
        let ghost pre = self.change_history@;
        let mut i: usize = 0;
        while i < diffs.len()
            invariant
                i <= diffs@.len(),
                self.change_history@.len() == pre.len() + i,
                self.change_history@.subrange(0, pre.len() as int) == pre,
                forall|j: int|
                    0 <= j < i ==> (#[trigger] self.change_history@[pre.len() + j])@ == diffs@[j]@,
                self.id == old(self).id,
                self.name == old(self).name,
                self.added_commit == old(self).added_commit,
                self.removed_commit is None,
                self.initial_entry == old(self).initial_entry,
                self.current_entry == old(self).current_entry,
                diffs@.map_values(|c: EntryChange| c@) == spec_theme_changes(
                    old(self).current_entry@,
                    theme_entry_views(theme_list.entries@)[idx as int],
                    theme_list.commit,
                ),
                idx < theme_list.entries@.len(),
            decreases diffs@.len() - i,
        {
            let ghost before = self.change_history@;
            let c = diffs[i].clone();
            self.change_history.push(c);
            proof {
                assert(self.change_history@.subrange(0, pre.len() as int) =~= before.subrange(
                    0,
                    pre.len() as int,
                ));
            }
            i = i + 1;
        }
        self.current_entry = new_entry.clone();
        proof {
            let full = changes_view(self.change_history@);
            let expected = changes_view(pre) + spec_theme_changes(
                old(self).current_entry@,
                theme_entry_views(theme_list.entries@)[idx as int],
                theme_list.commit,
            );
            assert(full.len() == expected.len());
            assert forall|k: int| 0 <= k < full.len() implies full[k] == expected[k] by {
                if k < pre.len() {
                    assert(self.change_history@.subrange(0, pre.len() as int)[k]
                        == self.change_history@[k]);
                    assert(full[k] == changes_view(pre)[k]);
                } else {
                    assert((self.change_history@[pre.len() + (k - pre.len())])@ == diffs@[k
                        - pre.len()]@);
                    assert(diffs@.map_values(|c: EntryChange| c@)[k - pre.len()] == diffs@[k
                        - pre.len()]@);
                }
            }
            assert(full =~~= expected);
            assert(self.change_history@.subrange(0, old(self).change_history@.len() as int)
                =~= old(self).change_history@);
        }
    }

    /// Whether the theme was added in the given month.
    pub fn released_in_month(&self, date: &Date) -> (r: bool)
        ensures
            r == (self.added_commit.date.month == date.month && self.added_commit.date.year
                == date.year),
    {
        self.added_commit.date.month == date.month && self.added_commit.date.year == date.year
    }

    /// Whether the theme was removed in the given month.
    pub fn removed_in_month(&self, date: &Date) -> (r: bool)
        ensures
            r == match self.removed_commit {
                Option::Some(c) => c.date.month == date.month && c.date.year == date.year,
                Option::None => false,
            },
    {
        match &self.removed_commit {
            Option::Some(removed_commit) => removed_commit.date.month == date.month
                && removed_commit.date.year == date.year,
            Option::None => false,
        }
    }

    pub fn get_id(&self) -> (r: String)
        ensures
            r@ == self.id@,
    {
        self.id.clone()
    }

    pub fn get_name(&self) -> (r: String)
        ensures
            r@ == self.current_entry.name@,
    {
        self.current_entry.name.clone()
    }

    pub fn author(&self) -> (r: String)
        ensures
            r@ == self.current_entry.author@,
    {
        self.current_entry.author.clone()
    }

    /// The theme's repository page.
    pub fn repo_url(&self) -> (r: String)
        ensures
            r@ == "https://github.com/"@ + self.current_entry.repo@,
    {
        let mut s = String::from_str("https://github.com/");
        s.append(self.current_entry.repo.as_str());
        s
    }

    pub fn added_commit(&self) -> (r: StringCommit)
        ensures
            r.date@ == crate::date::spec_date_string(self.added_commit.date),
            r.hash@ == self.added_commit.hash@,
    {
        self.added_commit.to_string_commit()
    }

    pub fn removed_commit(&self) -> (r: Option<StringCommit>)
        ensures
            match r {
                Option::Some(c) => self.removed_commit matches Option::Some(rc) && c.date@
                    == crate::date::spec_date_string(rc.date) && c.hash@ == rc.hash@,
                Option::None => self.removed_commit is None,
            },
    {
        match &self.removed_commit {
            Option::Some(c) => Some(c.to_string_commit()),
            Option::None => None,
        }
    }

    /// The change log as report rows.
    pub fn changes(&self) -> (r: Vec<EntryChangeDataPoint>)
        ensures
            r@.len() == self.change_history@.len(),
            forall|i: int|
                0 <= i < r@.len() ==> (#[trigger] r@[i]).property@
                    == self.change_history@[i]@.property && r@[i].old_value@
                    == self.change_history@[i]@.old_value && r@[i].new_value@
                    == self.change_history@[i]@.new_value,
    {
        let mut r: Vec<EntryChangeDataPoint> = Vec::new();
        let mut i: usize = 0;
        while i < self.change_history.len()
            invariant
                i <= self.change_history@.len(),
                r@.len() == i as int,
                forall|j: int|
                    0 <= j < i ==> (#[trigger] r@[j]).property@
                        == self.change_history@[j]@.property && r@[j].old_value@
                        == self.change_history@[j]@.old_value && r@[j].new_value@
                        == self.change_history@[j]@.new_value,
            decreases self.change_history@.len() - i,
        {
            r.push(self.change_history[i].to_data_point());
            i = i + 1;
        }
        r
    }
}

/// Theme names are pairwise distinct.
pub open spec fn unique_theme_names(s: Seq<ThemeData>) -> bool {
    forall|i: int, j: int|
        0 <= i < j < s.len() ==> (#[trigger] s[i]).name@ != (#[trigger] s[j]).name@
}

/// Index of the record with this name, or the length when absent.
fn find_theme_record(themes: &Vec<ThemeData>, name: &str) -> (r: usize)
    ensures
        r <= themes@.len(),
        r == themes@.len() ==> forall|i: int|
            0 <= i < themes@.len() ==> (#[trigger] themes@[i]).name@ != name@,
        r < themes@.len() ==> themes@[r as int].name@ == name@,
{
    let mut i: usize = 0;
    while i < themes.len()
        invariant
            i <= themes@.len(),
            forall|j: int| 0 <= j < i ==> (#[trigger] themes@[j]).name@ != name@,
        decreases themes@.len() - i,
    {
        if crate::digits::str_eq(themes[i].name.as_str(), name) {
            return i;
        }
        i = i + 1;
    }
    themes.len()
}

/// The mathematical content of one theme record.
#[verifier::ext_equal]
pub struct ThemeLifecycleView {
    pub id: Seq<char>,
    pub name: Seq<char>,
    pub added_date: Date,
    pub added_hash: Seq<char>,
    pub removed: Option<(Date, Seq<char>)>,
    pub initial: ThemeEntryView,
    pub current: ThemeEntryView,
    pub changes: Seq<ChangeView>,
}

pub open spec fn theme_lifecycle_view(t: ThemeData) -> ThemeLifecycleView {
    ThemeLifecycleView {
        id: t.id@,
        name: t.name@,
        added_date: t.added_commit.date,
        added_hash: t.added_commit.hash@,
        removed: match t.removed_commit {
            Option::Some(c) => Option::Some((c.date, c.hash@)),
            Option::None => Option::None,
        },
        initial: t.initial_entry@,
        current: t.current_entry@,
        changes: crate::plugin::changes_view(t.change_history@),
    }
}

/// A record freshly opened for a theme first seen at this commit; its id is
/// the one recorded for the name, or the name itself.
pub open spec fn spec_new_theme(
    e: ThemeEntryView,
    commit: Commit,
    ids: Seq<(String, String)>,
) -> ThemeLifecycleView {
    ThemeLifecycleView {
        id: match spec_lookup_id(ids, e.name) {
            Option::Some(id) => id,
            Option::None => e.name,
        },
        name: e.name,
        added_date: commit.date,
        added_hash: commit.hash@,
        removed: Option::None,
        initial: e,
        current: e,
        changes: seq![change_of("Theme Added"@, commit, ""@, ""@)],
    }
}

/// One step of the state machine: exactly the transitions
/// [`ThemeData::find_changes`] performs.
pub open spec fn spec_step_theme(
    s: ThemeLifecycleView,
    entries: Seq<ThemeEntryView>,
    commit: Commit,
) -> ThemeLifecycleView {
    match spec_find_theme(entries, s.name) {
        Option::None => match s.removed {
            Option::Some(_) => s,
            Option::None => ThemeLifecycleView {
                removed: Option::Some((commit.date, commit.hash@)),
                changes: s.changes.push(change_of("Theme Removed"@, commit, ""@, ""@)),
                ..s
            },
        },
        Option::Some(new_entry) => ThemeLifecycleView {
            removed: Option::None,
            current: new_entry,
            changes: s.changes + (match s.removed {
                Option::Some(_) => seq![change_of("Theme Re-Added"@, commit, ""@, ""@)],
                Option::None => Seq::<ChangeView>::empty(),
            }) + spec_theme_changes(s.current, new_entry, commit),
            ..s
        },
    }
}

pub open spec fn spec_step_all_themes(
    states: Seq<ThemeLifecycleView>,
    entries: Seq<ThemeEntryView>,
    commit: Commit,
) -> Seq<ThemeLifecycleView> {
    states.map_values(|s: ThemeLifecycleView| spec_step_theme(s, entries, commit))
}

pub open spec fn spec_has_name(states: Seq<ThemeLifecycleView>, name: Seq<char>) -> bool {
    exists|i: int| 0 <= i < states.len() && (#[trigger] states[i]).name == name
}

/// New records opened for the snapshot's entries not yet on record, in
/// entry order, each name admitted once.
pub open spec fn spec_admit_new_themes(
    states: Seq<ThemeLifecycleView>,
    entries: Seq<ThemeEntryView>,
    commit: Commit,
    ids: Seq<(String, String)>,
) -> Seq<ThemeLifecycleView>
    decreases entries.len(),
{
    if entries.len() == 0 {
        states
    } else {
        let prev = spec_admit_new_themes(states, entries.drop_last(), commit, ids);
        if spec_has_name(prev, entries.last().name) {
            prev
        } else {
            prev.push(spec_new_theme(entries.last(), commit, ids))
        }
    }
}

/// The whole theme reconstruction: per snapshot, first every existing
/// record steps, then the snapshot's unseen names are admitted.
pub open spec fn spec_build_themes(
    lists: Seq<ThemeList>,
    ids: Seq<(String, String)>,
) -> Seq<ThemeLifecycleView>
    decreases lists.len(),
{
    if lists.len() == 0 {
        Seq::empty()
    } else {
        let prev = spec_build_themes(lists.drop_last(), ids);
        let l = lists.last();
        spec_admit_new_themes(
            spec_step_all_themes(prev, theme_entry_views(l.entries@), l.commit),
            theme_entry_views(l.entries@),
            l.commit,
            ids,
        )
    }
}

/// Folds the ordered theme snapshot sequence into one lifecycle record per
/// theme: the result is exactly the spec-level fold [`spec_build_themes`],
/// the same state machine as for plugins, keyed by the theme's name. The
/// record id is the one the caller recorded for the name.
pub fn build_theme_data(theme_lists: &Vec<ThemeList>, ids: &Vec<(String, String)>) -> (r: Vec<
    ThemeData,
>)
    ensures
        r@.map_values(|t: ThemeData| theme_lifecycle_view(t)) == spec_build_themes(
            theme_lists@,
            ids@,
        ),
        unique_theme_names(r@),
        forall|i: int|
            0 <= i < r@.len() ==> exists|k: int|
                0 <= k < theme_lists@.len() && spec_find_theme(
                    theme_entry_views((#[trigger] theme_lists@[k]).entries@),
                    (#[trigger] r@[i]).name@,
                ) is Some,
{
    let mut themes: Vec<ThemeData> = Vec::new();
    let mut k: usize = 0;
    proof {
        assert(themes@.map_values(|t: ThemeData| theme_lifecycle_view(t)) =~= spec_build_themes(
            theme_lists@.subrange(0, 0),
            ids@,
        ));
    }
    while k < theme_lists.len()
        invariant
            k <= theme_lists@.len(),
            unique_theme_names(themes@),
            themes@.map_values(|t: ThemeData| theme_lifecycle_view(t)) == spec_build_themes(
                theme_lists@.subrange(0, k as int),
                ids@,
            ),
            forall|i: int|
                0 <= i < themes@.len() ==> exists|k2: int|
                    0 <= k2 < k && spec_find_theme(
                        theme_entry_views((#[trigger] theme_lists@[k2]).entries@),
                        (#[trigger] themes@[i]).name@,
                    ) is Some,
        decreases theme_lists@.len() - k,
    {
        let ghost pre_lists = theme_lists@.subrange(0, k as int);
        let ghost cur_lists = theme_lists@.subrange(0, k + 1);
        let ghost prev_views = spec_build_themes(pre_lists, ids@);
        proof {
            assert(cur_lists.drop_last() =~= pre_lists);
            assert(cur_lists.last() == theme_lists@[k as int]);
        }
        let list = &theme_lists[k];
        let ghost entry_views = theme_entry_views(list.entries@);
        let ghost round_start = themes@;
        if k > 0 {
            let mut i: usize = 0;
            while i < themes.len()
                invariant
                    i <= themes@.len(),
                    k < theme_lists@.len(),
                    list == &theme_lists@[k as int],
                    entry_views == theme_entry_views(list.entries@),
                    themes@.len() == round_start.len(),
                    unique_theme_names(themes@),
                    forall|j: int| i <= j < themes@.len() ==> #[trigger] themes@[j]
                        == round_start[j],
                    forall|j: int|
                        0 <= j < i ==> theme_lifecycle_view(#[trigger] themes@[j])
                            == spec_step_theme(
                            theme_lifecycle_view(round_start[j]),
                            entry_views,
                            list.commit,
                        ),
                    forall|j: int|
                        0 <= j < themes@.len() ==> (#[trigger] themes@[j]).name@
                            == round_start[j].name@,
                    forall|j: int|
                        0 <= j < themes@.len() ==> exists|k2: int|
                            0 <= k2 <= k && spec_find_theme(
                                theme_entry_views((#[trigger] theme_lists@[k2]).entries@),
                                (#[trigger] themes@[j]).name@,
                            ) is Some,
                decreases themes@.len() - i,
            {
                let ghost before = themes@;
                let t = &mut themes[i];
                t.find_changes(list);
                proof {
                    assert(forall|j: int|
                        0 <= j < themes@.len() && j != i ==> themes@[j] == before[j]);
                    assert(themes@[i as int].name@ == before[i as int].name@);
                    assert(theme_lifecycle_view(themes@[i as int]) =~~= spec_step_theme(
                        theme_lifecycle_view(round_start[i as int]),
                        entry_views,
                        list.commit,
                    ));
                }
                i = i + 1;
            }
        }
        proof {
            assert(themes@.map_values(|t: ThemeData| theme_lifecycle_view(t))
                =~~= spec_step_all_themes(prev_views, entry_views, list.commit));
        }
        let ghost stepped = spec_step_all_themes(prev_views, entry_views, list.commit);
        let mut e: usize = 0;
        proof {
            assert(spec_admit_new_themes(stepped, entry_views.subrange(0, 0), list.commit, ids@)
                =~= stepped);
        }
        while e < list.entries.len()
            invariant
                e <= list.entries@.len(),
                k < theme_lists@.len(),
                list == &theme_lists@[k as int],
                entry_views == theme_entry_views(list.entries@),
                unique_theme_names(themes@),
                themes@.map_values(|t: ThemeData| theme_lifecycle_view(t))
                    == spec_admit_new_themes(
                    stepped,
                    entry_views.subrange(0, e as int),
                    list.commit,
                    ids@,
                ),
                forall|j: int|
                    0 <= j < themes@.len() ==> exists|k2: int|
                        0 <= k2 <= k && spec_find_theme(
                            theme_entry_views((#[trigger] theme_lists@[k2]).entries@),
                            (#[trigger] themes@[j]).name@,
                        ) is Some,
            decreases list.entries@.len() - e,
        {
            let ghost pre_entries = entry_views.subrange(0, e as int);
            let ghost cur_entries = entry_views.subrange(0, e + 1);
            let ghost admitted = spec_admit_new_themes(stepped, pre_entries, list.commit, ids@);
            proof {
                assert(cur_entries.drop_last() =~= pre_entries);
                assert(cur_entries.last() == entry_views[e as int]);
            }
            let entry = &list.entries[e];
            let idx = find_theme_record(&themes, entry.name.as_str());
            proof {
                if idx < themes.len() {
                    assert(theme_lifecycle_view(themes@[idx as int]).name == entry@.name);
                    assert(themes@.map_values(|t: ThemeData| theme_lifecycle_view(t))[idx as int]
                        == theme_lifecycle_view(themes@[idx as int]));
                    assert(spec_has_name(admitted, entry_views[e as int].name));
                } else {
                    assert(!spec_has_name(admitted, entry_views[e as int].name)) by {
                        if spec_has_name(admitted, entry_views[e as int].name) {
                            let ghost ename = entry_views[e as int].name;
                            let w = choose|w: int|
                                0 <= w < admitted.len() && (#[trigger] admitted[w]).name == ename;
                            assert(admitted[w] == theme_lifecycle_view(themes@[w]));
                            assert(themes@[w].name@ == entry@.name);
                        }
                    }
                }
            }
            if idx == themes.len() {
                let id = lookup_id(ids, entry.name.as_str());
                let t = ThemeData::new(id, entry.name.clone(), &list.commit, entry);
                proof {
                    lemma_find_theme_present(theme_entry_views(list.entries@), e as int);
                }
                let ghost pre_themes = themes@;
                themes.push(t);
                proof {
                    assert(theme_lifecycle_view(themes@[pre_themes.len() as int])
                        =~~= spec_new_theme(entry_views[e as int], list.commit, ids@));
                    assert(themes@.map_values(|q: ThemeData| theme_lifecycle_view(q))
                        =~~= admitted.push(
                        spec_new_theme(entry_views[e as int], list.commit, ids@),
                    ));
                }
            }
            e = e + 1;
        }
        proof {
            assert(entry_views.subrange(0, entry_views.len() as int) =~= entry_views);
            assert(spec_build_themes(cur_lists, ids@) == spec_admit_new_themes(
                stepped,
                entry_views,
                list.commit,
                ids@,
            ));
        }
        k = k + 1;
    }
    proof {
        assert(theme_lists@.subrange(0, theme_lists@.len() as int) =~= theme_lists@);
    }
    themes
}

/// The id recorded first for a name, if any.
pub open spec fn spec_lookup_id(ids: Seq<(String, String)>, name: Seq<char>) -> Option<Seq<char>>
    decreases ids.len(),
{
    if ids.len() == 0 {
        Option::None
    } else if ids[0].0@ == name {
        Option::Some(ids[0].1@)
    } else {
        spec_lookup_id(ids.skip(1), name)
    }
}

/// The id recorded for a name, or the name itself when none is recorded.
fn lookup_id(ids: &Vec<(String, String)>, name: &str) -> (r: String)
    ensures
        r@ == match spec_lookup_id(ids@, name@) {
            Option::Some(id) => id,
            Option::None => name@,
        },
{
    let ghost s = ids@;
    let mut i: usize = 0;
    proof {
        assert(s.skip(0) =~= s);
    }
    while i < ids.len()
        invariant
            i <= s.len(),
            s == ids@,
            spec_lookup_id(s, name@) == spec_lookup_id(s.skip(i as int), name@),
        decreases s.len() - i,
    {
        proof {
            assert(s.skip(i as int)[0] == s[i as int]);
            assert(s.skip(i as int).skip(1) =~= s.skip(i + 1));
        }
        if crate::digits::str_eq(ids[i].0.as_str(), name) {
            return ids[i].1.clone();
        }
        i = i + 1;
    }
    proof {
        assert(s.skip(s.len() as int) =~= Seq::<(String, String)>::empty());
    }
    String::from_str(name)
}

/// A list containing an entry with some name finds one by that name.
proof fn lemma_find_theme_present(s: Seq<ThemeEntryView>, i: int)
    requires
        0 <= i < s.len(),
    ensures
        spec_find_theme(s, s[i].name) is Some,
    decreases s.len(),
{
    if s[0].name != s[i].name {
        assert(s.skip(1)[i - 1] == s[i]);
        lemma_find_theme_present(s.skip(1), i - 1);
    }
}

} // verus!
