//! Plugin lifecycle records and the timeline builder.
//!
//! The builder consumes an ordered sequence of full snapshots and maintains
//! one record per entity: when it appeared, every field change, its removal
//! and re-addition, and — through the stats accumulator — its download
//! series and version history. Sequence order, not the snapshot date, is
//! authoritative for change attribution.

use vstd::prelude::*;

use crate::commit::Commit;
use crate::common::{
    download_history_wf, spec_downloads_at, ChangeView, DownloadHistory, DownloadRecord,
    EntryChange, VersionHistory,
};
use crate::date::{day_index, valid_date, Date};
use crate::input_data::{change_of, spec_plugin_changes, ObsCommunityPlugin, PluginEntryView};

verus! {

/// One full snapshot of the plugin registry, tied to the commit it was read
/// at.
#[derive(Debug)]
pub struct PluginList {
    pub entries: Vec<ObsCommunityPlugin>,
    pub commit: Commit,
}

/// The first entry of the list with this id, if any.
pub open spec fn spec_find_plugin(s: Seq<PluginEntryView>, id: Seq<char>) -> Option<
    PluginEntryView,
>
    decreases s.len(),
{
    if s.len() == 0 {
        Option::None
    } else if s[0].id == id {
        Option::Some(s[0])
    } else {
        spec_find_plugin(s.skip(1), id)
    }
}

pub open spec fn plugin_entry_views(entries: Seq<ObsCommunityPlugin>) -> Seq<PluginEntryView> {
    entries.map_values(|e: ObsCommunityPlugin| e@)
}

/// Index of the first entry with this id, or the length when absent.
fn find_entry_index(entries: &Vec<ObsCommunityPlugin>, id: &str) -> (r: usize)
    ensures
        r <= entries@.len(),
        r == entries@.len() ==> spec_find_plugin(plugin_entry_views(entries@), id@) is None,
        r < entries@.len() ==> entries@[r as int]@.id == id@ && spec_find_plugin(
            plugin_entry_views(entries@),
            id@,
        ) == Option::Some(entries@[r as int]@),
{
    let ghost views = plugin_entry_views(entries@);
    let mut i: usize = 0;
    proof {
        assert(views.skip(0) =~= views);
    }
    while i < entries.len()
        invariant
            i <= entries@.len(),
            views == plugin_entry_views(entries@),
            spec_find_plugin(views, id@) == spec_find_plugin(views.skip(i as int), id@),
        decreases entries@.len() - i,
    {
        proof {
            assert(views.skip(i as int)[0] == views[i as int]);
            assert(views.skip(i as int).skip(1) =~= views.skip(i + 1));
        }
        if crate::digits::str_eq(entries[i].id.as_str(), id) {
            return i;
        }
        i = i + 1;
    }
    proof {
        assert(views.skip(views.len() as int) =~= Seq::<PluginEntryView>::empty());
    }
    entries.len()
}

/// The change log as mathematical records.
pub open spec fn changes_view(h: Seq<EntryChange>) -> Seq<ChangeView> {
    h.map_values(|c: EntryChange| c@)
}

/// The version history as (text, first-seen date) pairs.
pub open spec fn vh_view(h: Seq<VersionHistory>) -> Seq<(Seq<char>, Date)> {
    h.map_values(|v: VersionHistory| (v.version@, v.initial_release_date))
}

/// The reconstructed lifecycle of one plugin.
#[derive(Debug)]
pub struct PluginData {
    pub id: String,
    pub added_commit: Commit,
    pub removed_commit: Option<Commit>,
    pub initial_entry: ObsCommunityPlugin,
    pub current_entry: ObsCommunityPlugin,
    pub change_history: Vec<EntryChange>,
    pub download_history: DownloadHistory,
    pub download_count: u32,
    pub version_history: Vec<VersionHistory>,
}

impl PluginData {
    /// A fresh record for an entity first seen in this snapshot: the change
    /// log opens with the addition event.
    pub fn new(id: String, added_commit: &Commit, initial_entry: &ObsCommunityPlugin) -> (r:
        PluginData)
        ensures
            r.id@ == id@,
            r.added_commit.date == added_commit.date,
            r.added_commit.hash@ == added_commit.hash@,
            r.removed_commit is None,
            r.initial_entry@ == initial_entry@,
            r.current_entry@ == initial_entry@,
            changes_view(r.change_history@) =~~= seq![
                change_of("Plugin Added"@, *added_commit, ""@, ""@),
            ],
            r.download_history.0@.len() == 0,
            r.download_count == 0,
            r.version_history@.len() == 0,
    {
        proof {
            reveal_strlit("");
            assert(""@ =~= Seq::<char>::empty());
        }
        let mut change_history: Vec<EntryChange> = Vec::new();
        change_history.push(
            EntryChange {
                property: String::from_str("Plugin Added"),
                commit: added_commit.clone(),
                old_value: String::new(),
                new_value: String::new(),
            },
        );
        PluginData {
            id,
            added_commit: added_commit.clone(),
            removed_commit: None,
            initial_entry: initial_entry.clone(),
            current_entry: initial_entry.clone(),
            change_history,
            download_history: DownloadHistory::new(),
            download_count: 0,
            version_history: Vec::new(),
        }
    }

    /// Appends one change record.
    pub fn add_change(&mut self, change: EntryChange)
        ensures
            final(self).change_history@ == old(self).change_history@.push(change),
            final(self).id == old(self).id,
            final(self).added_commit == old(self).added_commit,
            final(self).removed_commit == old(self).removed_commit,
            final(self).initial_entry == old(self).initial_entry,
            final(self).current_entry == old(self).current_entry,
            final(self).download_history == old(self).download_history,
            final(self).download_count == old(self).download_count,
            final(self).version_history == old(self).version_history,
    {
        self.change_history.push(change);
    }

    /// Drives the per-entity state machine one snapshot forward.
    ///
    /// Absent and not yet removed: the record is closed with a removal
    /// event. Absent and already removed: nothing changes. Present again
    /// after a removal: the removal is cleared and a re-addition event
    /// logged, then normal diffing resumes. Present: one change record per
    /// differing field, and the current entry advances. The change log only
    /// ever grows at its end, so change records stand in snapshot order.
    pub fn find_changes(&mut self, plugin_list: &PluginList)
        ensures
            final(self).id == old(self).id,
            final(self).added_commit == old(self).added_commit,
            final(self).initial_entry == old(self).initial_entry,
            final(self).download_history == old(self).download_history,
            final(self).download_count == old(self).download_count,
            final(self).version_history == old(self).version_history,
            final(self).change_history@.subrange(0, old(self).change_history@.len() as int)
                == old(self).change_history@,
            match spec_find_plugin(plugin_entry_views(plugin_list.entries@), old(self).id@) {
                Option::None => {
                    &&& final(self).current_entry == old(self).current_entry
                    &&& final(self).removed_commit is Some
                    &&& match old(self).removed_commit {
                        Option::Some(_) => *final(self) == *old(self),
                        Option::None => {
                            &&& match final(self).removed_commit {
                                Option::Some(c) => c.date == plugin_list.commit.date && c.hash@
                                    == plugin_list.commit.hash@,
                                Option::None => false,
                            }
                            &&& changes_view(final(self).change_history@) =~~= changes_view(
                                old(self).change_history@,
                            ).push(change_of("Plugin Removed"@, plugin_list.commit, ""@, ""@))
                        },
                    }
                },
                Option::Some(new_entry) => {
                    &&& final(self).removed_commit is None
                    &&& final(self).current_entry@ == new_entry
                    &&& changes_view(final(self).change_history@) =~~= changes_view(
                        old(self).change_history@,
                    ) + (match old(self).removed_commit {
                        Option::Some(_) => seq![
                            change_of("Plugin Re-Added"@, plugin_list.commit, ""@, ""@),
                        ],
                        Option::None => Seq::<ChangeView>::empty(),
                    }) + spec_plugin_changes(
                        old(self).current_entry@,
                        new_entry,
                        plugin_list.commit,
                    )
                },
            },
    {
        proof {
            reveal_strlit("");
            assert(""@ =~= Seq::<char>::empty());
        }
        let idx = find_entry_index(&plugin_list.entries, self.id.as_str());
        if idx == plugin_list.entries.len() {
            // the plugin is absent from this snapshot
            if self.removed_commit.is_none() {
                self.removed_commit = Some(plugin_list.commit.clone());
                self.change_history.push(
                    EntryChange {
                        property: String::from_str("Plugin Removed"),
                        commit: plugin_list.commit.clone(),
                        old_value: String::new(),
                        new_value: String::new(),
                    },
                );
            }
            return ;
        }
        let new_entry = &plugin_list.entries[idx];
        if self.removed_commit.is_some() {
            // the plugin reappeared after a removal
            self.removed_commit = None;
            self.change_history.push(
                EntryChange {
                    property: String::from_str("Plugin Re-Added"),
                    commit: plugin_list.commit.clone(),
                    old_value: String::new(),
                    new_value: String::new(),
                },
            );
        }
        let mut diffs = self.current_entry.compare(new_entry, &plugin_list.commit);
        let ghost pre = self.change_history@;
        let mut i: usize = 0;
        while i < diffs.len()
            invariant
                i <= diffs@.len(),
                self.change_history@.len() == pre.len() + i,
                self.change_history@.subrange(0, pre.len() as int) == pre,
                forall|j: int|
                    0 <= j < i ==> (#[trigger] self.change_history@[pre.len() + j])@ == diffs@[j]@,
                self.id == old(self).id,
                self.added_commit == old(self).added_commit,
                self.removed_commit is None,
                self.initial_entry == old(self).initial_entry,
                self.current_entry == old(self).current_entry,
                self.download_history == old(self).download_history,
                self.download_count == old(self).download_count,
                self.version_history == old(self).version_history,
                diffs@.map_values(|c: EntryChange| c@) == spec_plugin_changes(
                    old(self).current_entry@,
                    plugin_entry_views(plugin_list.entries@)[idx as int],
                    plugin_list.commit,
                ),
                idx < plugin_list.entries@.len(),
            decreases diffs@.len() - i,
        {
            let ghost before = self.change_history@;
            let c = diffs[i].clone();
            self.change_history.push(c);
            proof {
                assert(self.change_history@.subrange(0, pre.len() as int) =~= before.subrange(
                    0,
                    pre.len() as int,
                ));
            }
            i = i + 1;
        }
        self.current_entry = new_entry.clone();
        proof {
            let full = changes_view(self.change_history@);
            let expected = changes_view(pre) + spec_plugin_changes(
                old(self).current_entry@,
                plugin_entry_views(plugin_list.entries@)[idx as int],
                plugin_list.commit,
            );
            assert(full.len() == expected.len());
            assert forall|k: int| 0 <= k < full.len() implies full[k] == expected[k] by {
                if k < pre.len() {
                    assert(self.change_history@.subrange(0, pre.len() as int)[k]
                        == self.change_history@[k]);
                    assert(full[k] == changes_view(pre)[k]);
                } else {
                    assert((self.change_history@[pre.len() + (k - pre.len())])@ == diffs@[k
                        - pre.len()]@);
                    assert(diffs@.map_values(|c: EntryChange| c@)[k - pre.len()] == diffs@[k
                        - pre.len()]@);
                }
            }
            assert(full =~~= expected);
            assert(changes_view(pre).subrange(0, old(self).change_history@.len() as int)
                =~= changes_view(old(self).change_history@));
            assert(self.change_history@.subrange(0, old(self).change_history@.len() as int)
                =~= old(self).change_history@);
        }
    }
}

/// Ids are pairwise distinct.
pub open spec fn unique_ids(s: Seq<PluginData>) -> bool {
    forall|i: int, j: int|
        0 <= i < j < s.len() ==> (#[trigger] s[i]).id@ != (#[trigger] s[j]).id@
}

/// Index of the record with this id, or the length when absent.
fn find_plugin_index(plugins: &Vec<PluginData>, id: &str) -> (r: usize)
    ensures
        r <= plugins@.len(),
        r == plugins@.len() ==> forall|i: int|
            0 <= i < plugins@.len() ==> (#[trigger] plugins@[i]).id@ != id@,
        r < plugins@.len() ==> plugins@[r as int].id@ == id@,
{
    let mut i: usize = 0;
    while i < plugins.len()
        invariant
            i <= plugins@.len(),
            forall|j: int| 0 <= j < i ==> (#[trigger] plugins@[j]).id@ != id@,
        decreases plugins@.len() - i,
    {
        if crate::digits::str_eq(plugins[i].id.as_str(), id) {
            return i;
        }
        i = i + 1;
    }
    plugins.len()
}

/// The mathematical content of one lifecycle record: everything the
/// snapshot-diffing state machine maintains.
#[verifier::ext_equal]
pub struct LifecycleView {
    pub id: Seq<char>,
    pub added_date: Date,
    pub added_hash: Seq<char>,
    pub removed: Option<(Date, Seq<char>)>,
    pub initial: PluginEntryView,
    pub current: PluginEntryView,
    pub changes: Seq<ChangeView>,
}

pub open spec fn lifecycle_view(p: PluginData) -> LifecycleView {
    LifecycleView {
        id: p.id@,
        added_date: p.added_commit.date,
        added_hash: p.added_commit.hash@,
        removed: match p.removed_commit {
            Option::Some(c) => Option::Some((c.date, c.hash@)),
            Option::None => Option::None,
        },
        initial: p.initial_entry@,
        current: p.current_entry@,
        changes: changes_view(p.change_history@),
    }
}

/// A record freshly opened for an entity first seen at this commit.
pub open spec fn spec_new_lifecycle(e: PluginEntryView, commit: Commit) -> LifecycleView {
    LifecycleView {
        id: e.id,
        added_date: commit.date,
        added_hash: commit.hash@,
        removed: Option::None,
        initial: e,
        current: e,
        changes: seq![change_of("Plugin Added"@, commit, ""@, ""@)],
    }
}

/// One step of the state machine: exactly the transitions
/// [`PluginData::find_changes`] performs.
pub open spec fn spec_step_lifecycle(
    s: LifecycleView,
    entries: Seq<PluginEntryView>,
    commit: Commit,
) -> LifecycleView {
    match spec_find_plugin(entries, s.id) {
        Option::None => match s.removed {
            Option::Some(_) => s,
            Option::None => LifecycleView {
                removed: Option::Some((commit.date, commit.hash@)),
                changes: s.changes.push(change_of("Plugin Removed"@, commit, ""@, ""@)),
                ..s
            },
        },
        Option::Some(new_entry) => LifecycleView {
            removed: Option::None,
            current: new_entry,
            changes: s.changes + (match s.removed {
                Option::Some(_) => seq![change_of("Plugin Re-Added"@, commit, ""@, ""@)],
                Option::None => Seq::<ChangeView>::empty(),
            }) + spec_plugin_changes(s.current, new_entry, commit),
            ..s
        },
    }
}

/// One snapshot applied to every existing record.
pub open spec fn spec_step_all(
    states: Seq<LifecycleView>,
    entries: Seq<PluginEntryView>,
    commit: Commit,
) -> Seq<LifecycleView> {
    states.map_values(|s: LifecycleView| spec_step_lifecycle(s, entries, commit))
}

pub open spec fn spec_has_id(states: Seq<LifecycleView>, id: Seq<char>) -> bool {
    exists|i: int| 0 <= i < states.len() && (#[trigger] states[i]).id == id
}

/// New records opened for the snapshot's entries not yet on record, in
/// entry order, each id admitted once.
pub open spec fn spec_admit_new(
    states: Seq<LifecycleView>,
    entries: Seq<PluginEntryView>,
    commit: Commit,
) -> Seq<LifecycleView>
    decreases entries.len(),
{
    if entries.len() == 0 {
        states
    } else {
        let prev = spec_admit_new(states, entries.drop_last(), commit);
        if spec_has_id(prev, entries.last().id) {
            prev
        } else {
            prev.push(spec_new_lifecycle(entries.last(), commit))
        }
    }
}

/// The whole reconstruction: per snapshot, first every existing record
/// steps, then the snapshot's unseen ids are admitted.
pub open spec fn spec_build(lists: Seq<PluginList>) -> Seq<LifecycleView>
    decreases lists.len(),
{
    if lists.len() == 0 {
        Seq::empty()
    } else {
        let prev = spec_build(lists.drop_last());
        let l = lists.last();
        spec_admit_new(
            spec_step_all(prev, plugin_entry_views(l.entries@), l.commit),
            plugin_entry_views(l.entries@),
            l.commit,
        )
    }
}

/// Folds the ordered snapshot sequence into one lifecycle record per entity:
/// the result is exactly the spec-level fold [`spec_build`] of the snapshot
/// sequence — the first snapshot seeds the records, every later snapshot
/// first drives each existing record one step of the state machine, then
/// opens a record for each id not seen before. Entities absent from every
/// snapshot never appear, and ids stay pairwise distinct.
pub fn build_plugin_data(plugin_lists: &Vec<PluginList>) -> (r: Vec<PluginData>)
    ensures
        r@.map_values(|p: PluginData| lifecycle_view(p)) == spec_build(plugin_lists@),
        unique_ids(r@),
        forall|i: int|
            0 <= i < r@.len() ==> exists|k: int|
                0 <= k < plugin_lists@.len() && spec_find_plugin(
                    plugin_entry_views((#[trigger] plugin_lists@[k]).entries@),
                    (#[trigger] r@[i]).id@,
                ) is Some,
        forall|i: int|
            0 <= i < r@.len() ==> changes_view((#[trigger] r@[i]).change_history@).len() >= 1,
{
    let mut plugins: Vec<PluginData> = Vec::new();
    let mut k: usize = 0;
    proof {
        assert(plugins@.map_values(|p: PluginData| lifecycle_view(p)) =~= spec_build(
            plugin_lists@.subrange(0, 0),
        ));
    }
    while k < plugin_lists.len()
        invariant
            k <= plugin_lists@.len(),
            unique_ids(plugins@),
            plugins@.map_values(|p: PluginData| lifecycle_view(p)) == spec_build(
                plugin_lists@.subrange(0, k as int),
            ),
            forall|i: int|
                0 <= i < plugins@.len() ==> exists|k2: int|
                    0 <= k2 < k && spec_find_plugin(
                        plugin_entry_views((#[trigger] plugin_lists@[k2]).entries@),
                        (#[trigger] plugins@[i]).id@,
                    ) is Some,
            forall|i: int|
                0 <= i < plugins@.len() ==> changes_view(
                    (#[trigger] plugins@[i]).change_history@,
                ).len() >= 1,
        decreases plugin_lists@.len() - k,
    {
        let ghost pre_lists = plugin_lists@.subrange(0, k as int);
        let ghost cur_lists = plugin_lists@.subrange(0, k + 1);
        let ghost prev_views = spec_build(pre_lists);
        proof {
            assert(cur_lists.drop_last() =~= pre_lists);
            assert(cur_lists.last() == plugin_lists@[k as int]);
        }
        let list = &plugin_lists[k];
        let ghost entry_views = plugin_entry_views(list.entries@);
        let ghost round_start = plugins@;
        if k > 0 {
            // drive every existing record one snapshot forward
            let mut i: usize = 0;
            while i < plugins.len()
                invariant
                    i <= plugins@.len(),
                    k < plugin_lists@.len(),
                    list == &plugin_lists@[k as int],
                    entry_views == plugin_entry_views(list.entries@),
                    plugins@.len() == round_start.len(),
                    unique_ids(plugins@),
                    forall|j: int| i <= j < plugins@.len() ==> #[trigger] plugins@[j]
                        == round_start[j],
                    forall|j: int|
                        0 <= j < i ==> lifecycle_view(#[trigger] plugins@[j])
                            == spec_step_lifecycle(
                            lifecycle_view(round_start[j]),
                            entry_views,
                            list.commit,
                        ),
                    forall|j: int|
                        0 <= j < plugins@.len() ==> (#[trigger] plugins@[j]).id@
                            == round_start[j].id@,
                    forall|j: int|
                        0 <= j < plugins@.len() ==> exists|k2: int|
                            0 <= k2 <= k && spec_find_plugin(
                                plugin_entry_views((#[trigger] plugin_lists@[k2]).entries@),
                                (#[trigger] plugins@[j]).id@,
                            ) is Some,
                    forall|j: int|
                        0 <= j < plugins@.len() ==> changes_view(
                            (#[trigger] plugins@[j]).change_history@,
                        ).len() >= 1,
                decreases plugins@.len() - i,
            {
                let ghost before = plugins@;
                let p = &mut plugins[i];
                p.find_changes(list);
                proof {
                    assert(forall|j: int|
                        0 <= j < plugins@.len() && j != i ==> plugins@[j] == before[j]);
                    assert(plugins@[i as int].id@ == before[i as int].id@);
                    assert(changes_view(plugins@[i as int].change_history@).len() >= 1) by {
                        assert(plugins@[i as int].change_history@.subrange(
                            0,
                            before[i as int].change_history@.len() as int,
                        ) == before[i as int].change_history@);
                    }
                    // one step of the state machine, by the exact contract
                    assert(lifecycle_view(plugins@[i as int]) =~~= spec_step_lifecycle(
                        lifecycle_view(round_start[i as int]),
                        entry_views,
                        list.commit,
                    ));
                }
                i = i + 1;
            }
        }
        proof {
            // the stepped state is the spec-level map, for an empty state too
            assert(plugins@.map_values(|p: PluginData| lifecycle_view(p)) =~~= spec_step_all(
                prev_views,
                entry_views,
                list.commit,
            ));
        }
        let ghost stepped = spec_step_all(prev_views, entry_views, list.commit);
        // open a record for every id not seen before
        let mut e: usize = 0;
        proof {
            assert(spec_admit_new(stepped, entry_views.subrange(0, 0), list.commit)
                =~= stepped);
        }
        while e < list.entries.len()
            invariant
                e <= list.entries@.len(),
                k < plugin_lists@.len(),
                list == &plugin_lists@[k as int],
                entry_views == plugin_entry_views(list.entries@),
                unique_ids(plugins@),
                plugins@.map_values(|p: PluginData| lifecycle_view(p)) == spec_admit_new(
                    stepped,
                    entry_views.subrange(0, e as int),
                    list.commit,
                ),
                forall|j: int|
                    0 <= j < plugins@.len() ==> exists|k2: int|
                        0 <= k2 <= k && spec_find_plugin(
                            plugin_entry_views((#[trigger] plugin_lists@[k2]).entries@),
                            (#[trigger] plugins@[j]).id@,
                        ) is Some,
                forall|j: int|
                    0 <= j < plugins@.len() ==> changes_view(
                        (#[trigger] plugins@[j]).change_history@,
                    ).len() >= 1,
            decreases list.entries@.len() - e,
        {
            let ghost pre_entries = entry_views.subrange(0, e as int);
            let ghost cur_entries = entry_views.subrange(0, e + 1);
            let ghost admitted = spec_admit_new(stepped, pre_entries, list.commit);
            proof {
                assert(cur_entries.drop_last() =~= pre_entries);
                assert(cur_entries.last() == entry_views[e as int]);
            }
            let entry = &list.entries[e];
            let idx = find_plugin_index(&plugins, entry.id.as_str());
            proof {
                // the executable id search decides spec-level membership
                if idx < plugins.len() {
                    assert(lifecycle_view(plugins@[idx as int]).id == entry@.id);
                    assert(plugins@.map_values(|p: PluginData| lifecycle_view(p))[idx as int]
                        == lifecycle_view(plugins@[idx as int]));
                    assert(spec_has_id(admitted, entry_views[e as int].id));
                } else {
                    assert(!spec_has_id(admitted, entry_views[e as int].id)) by {
                        if spec_has_id(admitted, entry_views[e as int].id) {
                            let ghost eid = entry_views[e as int].id;
                            let w = choose|w: int|
                                0 <= w < admitted.len() && (#[trigger] admitted[w]).id == eid;
                            assert(admitted[w] == lifecycle_view(plugins@[w]));
                            assert(plugins@[w].id@ == entry@.id);
                        }
                    }
                }
            }
            if idx == plugins.len() {
                let p = PluginData::new(entry.id.clone(), &list.commit, entry);
                proof {
                    lemma_find_plugin_present(plugin_entry_views(list.entries@), e as int);
                }
                let ghost pre_plugins = plugins@;
                plugins.push(p);
                proof {
                    assert(lifecycle_view(plugins@[pre_plugins.len() as int])
                        =~~= spec_new_lifecycle(entry_views[e as int], list.commit));
                    assert(plugins@.map_values(|q: PluginData| lifecycle_view(q))
                        =~~= admitted.push(
                        spec_new_lifecycle(entry_views[e as int], list.commit),
                    ));
                }
            }
            e = e + 1;
        }
        proof {
            assert(entry_views.subrange(0, entry_views.len() as int) =~= entry_views);
            assert(spec_build(cur_lists) == spec_admit_new(stepped, entry_views, list.commit));
        }
        k = k + 1;
    }
    proof {
        assert(plugin_lists@.subrange(0, plugin_lists@.len() as int) =~= plugin_lists@);
    }
    plugins
}

/// What a repository scan found of an entry's license.
#[derive(Debug)]
pub enum LicenseInfo {
    Known(String),
    ExplicitlyUnlicensed,
    Unrecognized,
    NotFound,
}

/// What the license info prints as.
pub open spec fn spec_license_string(l: LicenseInfo) -> Seq<char> {
    match l {
        LicenseInfo::Known(name) => name@,
        LicenseInfo::Unrecognized => "Unrecognized"@,
        LicenseInfo::NotFound => "Not Found"@,
        LicenseInfo::ExplicitlyUnlicensed => "Explicitly Unlicensed"@,
    }
}

/// Two license findings agree unless both are known and name different
/// licenses.
pub open spec fn spec_license_matches(a: LicenseInfo, b: LicenseInfo) -> bool {
    match (a, b) {
        (LicenseInfo::Known(n1), LicenseInfo::Known(n2)) => n1@ == n2@,
        _ => true,
    }
}

impl LicenseInfo {
    pub fn to_fancy_string(&self) -> (r: String)
        ensures
            r@ == spec_license_string(*self),
    {
        match self {
            LicenseInfo::Known(name) => name.clone(),
            LicenseInfo::Unrecognized => String::from_str("Unrecognized"),
            LicenseInfo::NotFound => String::from_str("Not Found"),
            LicenseInfo::ExplicitlyUnlicensed => String::from_str("Explicitly Unlicensed"),
        }
    }

    pub fn matches(&self, other: &LicenseInfo) -> (r: bool)
        ensures
            r == spec_license_matches(*self, *other),
    {
        match (self, other) {
            (LicenseInfo::Known(n1), LicenseInfo::Known(n2)) => crate::digits::str_eq(
                n1.as_str(),
                n2.as_str(),
            ),
            _ => true,
        }
    }

    pub fn matches_identifier(&self, other: &str) -> (r: bool)
        ensures
            r == match *self {
                LicenseInfo::Known(n1) => n1@ == other@,
                _ => false,
            },
    {
        match self {
            LicenseInfo::Known(n1) => crate::digits::str_eq(n1.as_str(), other),
            _ => false,
        }
    }

    /// An absent finding counts as not found.
    pub fn from_option(value: Option<LicenseInfo>) -> (r: LicenseInfo)
        ensures
            r == match value {
                Option::Some(l) => l,
                Option::None => LicenseInfo::NotFound,
            },
    {
        match value {
            Option::Some(l) => l,
            Option::None => LicenseInfo::NotFound,
        }
    }
}

impl Clone for LicenseInfo {
    fn clone(&self) -> (r: LicenseInfo)
        ensures
            spec_license_string(r) == spec_license_string(*self),
            r is Known <==> self is Known,
    {
        match self {
            LicenseInfo::Known(name) => LicenseInfo::Known(name.clone()),
            LicenseInfo::ExplicitlyUnlicensed => LicenseInfo::ExplicitlyUnlicensed,
            LicenseInfo::Unrecognized => LicenseInfo::Unrecognized,
            LicenseInfo::NotFound => LicenseInfo::NotFound,
        }
    }
}

/// A funding link: either one URL or a small table of named URLs.
#[derive(Debug, Clone)]
pub enum FundingUrl {
    Text(String),
    Table(Vec<(String, String)>),
}

/// An entry's manifest, as its repository declares it.
#[derive(Debug, Clone)]
pub struct PluginManifest {
    pub author: String,
    pub min_app_version: String,
    pub name: String,
    pub version: String,
    pub author_url: Option<String>,
    pub funding_url: Option<FundingUrl>,
    pub description: String,
    pub id: String,
    pub is_desktop_only: Option<bool>,
    pub help_url: Option<String>,
}

/// What a scan of the entry's repository found.
#[derive(Debug, Clone)]
pub struct PluginRepoData {
    pub uses_typescript: bool,
    pub has_package_json: bool,
    pub package_managers: Vec<crate::packages::PackageManager>,
    pub testing_frameworks: Vec<crate::testing::TestingFramework>,
    pub bundlers: Vec<crate::bundlers::Bundler>,
    pub dependencies: Vec<String>,
    pub dev_dependencies: Vec<String>,
    pub has_test_files: bool,
    pub has_beta_manifest: bool,
    pub file_type_counts: Vec<(String, usize)>,
    pub lines_of_code: Vec<(String, usize)>,
    /// The license identifier from the package manifest.
    pub package_json_license: LicenseInfo,
    /// The license identifier from the license file in the repository.
    pub file_license: LicenseInfo,
    pub manifest: PluginManifest,
}

/// The auxiliary classification data of one entry, keyed by its id.
#[derive(Debug)]
pub struct PluginExtraData {
    pub id: String,
    pub repo: Result<PluginRepoData, String>,
    pub removal_reason: Option<String>,
    pub deprecated_versions: Vec<String>,
}

impl Clone for PluginExtraData {
    fn clone(&self) -> (r: PluginExtraData)
        ensures
            r.id@ == self.id@,
            r.repo is Ok <==> self.repo is Ok,
    {
        PluginExtraData {
            id: self.id.clone(),
            repo: match &self.repo {
                Result::Ok(data) => Result::Ok(data.clone()),
                Result::Err(e) => Result::Err(e.clone()),
            },
            removal_reason: match &self.removal_reason {
                Option::Some(s) => Option::Some(s.clone()),
                Option::None => Option::None,
            },
            deprecated_versions: self.deprecated_versions.clone(),
        }
    }
}

/// A list containing an entry with some id finds one by that id.
proof fn lemma_find_plugin_present(s: Seq<PluginEntryView>, i: int)
    requires
        0 <= i < s.len(),
    ensures
        spec_find_plugin(s, s[i].id) is Some,
    decreases s.len(),
{
    if s[0].id != s[i].id {
        assert(s.skip(1)[i - 1] == s[i]);
        lemma_find_plugin_present(s.skip(1), i - 1);
    }
}

} // verus!
