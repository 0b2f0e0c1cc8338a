//! Registry entries as one snapshot lists them, and the field-by-field
//! comparison that drives the change log.

use vstd::prelude::*;

use crate::commit::Commit;
use crate::common::{ChangeView, EntryChange};

verus! {

/// One plugin entry of a registry snapshot.
#[derive(Debug)]
pub struct ObsCommunityPlugin {
    pub id: String,
    pub name: String,
    pub author: String,
    pub description: String,
    pub repo: String,
}

/// The fields of a plugin entry as character sequences.
#[verifier::ext_equal]
pub struct PluginEntryView {
    pub id: Seq<char>,
    pub name: Seq<char>,
    pub author: Seq<char>,
    pub description: Seq<char>,
    pub repo: Seq<char>,
}

impl View for ObsCommunityPlugin {
    type V = PluginEntryView;

    open spec fn view(&self) -> PluginEntryView {
        PluginEntryView {
            id: self.id@,
            name: self.name@,
            author: self.author@,
            description: self.description@,
            repo: self.repo@,
        }
    }
}

impl Clone for ObsCommunityPlugin {
    fn clone(&self) -> (r: ObsCommunityPlugin)
        ensures
            r@ == self@,
    {
        let r = ObsCommunityPlugin {
            id: self.id.clone(),
            name: self.name.clone(),
            author: self.author.clone(),
            description: self.description.clone(),
            repo: self.repo.clone(),
        };
        proof {
            assert(r@ == self@);
        }
        r
    }
}

/// One theme entry of a registry snapshot.
#[derive(Debug)]
pub struct ObsCommunityTheme {
    pub name: String,
    pub author: String,
    pub repo: String,
    pub screenshot: String,
    pub modes: Vec<String>,
    pub legacy: bool,
}

/// The fields of a theme entry as character sequences.
#[verifier::ext_equal]
pub struct ThemeEntryView {
    pub name: Seq<char>,
    pub author: Seq<char>,
    pub repo: Seq<char>,
    pub screenshot: Seq<char>,
    pub modes: Seq<Seq<char>>,
    pub legacy: bool,
}

impl View for ObsCommunityTheme {
    type V = ThemeEntryView;

    open spec fn view(&self) -> ThemeEntryView {
        ThemeEntryView {
            name: self.name@,
            author: self.author@,
            repo: self.repo@,
            screenshot: self.screenshot@,
            modes: Seq::new(self.modes@.len(), |i: int| self.modes@[i]@),
            legacy: self.legacy,
        }
    }
}

impl Clone for ObsCommunityTheme {
    fn clone(&self) -> (r: ObsCommunityTheme)
        ensures
            r@ == self@,
    {
        let mut modes: Vec<String> = Vec::new();
        let mut i: usize = 0;
        while i < self.modes.len()
            invariant
                i <= self.modes@.len(),
                modes@.len() == i as int,
                forall|j: int| 0 <= j < i ==> modes@[j]@ == (#[trigger] self.modes@[j])@,
            decreases self.modes@.len() - i,
        {
            modes.push(self.modes[i].clone());
            i = i + 1;
        }
        let r = ObsCommunityTheme {
            name: self.name.clone(),
            author: self.author.clone(),
            repo: self.repo.clone(),
            screenshot: self.screenshot.clone(),
            modes,
            legacy: self.legacy,
        };
        proof {
            assert(r@.modes =~= self@.modes);
            assert(r@ == self@);
        }
        r
    }
}

/// One expected change record.
pub open spec fn change_of(
    property: Seq<char>,
    commit: Commit,
    old_value: Seq<char>,
    new_value: Seq<char>,
) -> ChangeView {
    ChangeView {
        property,
        commit_date: commit.date,
        commit_hash: commit.hash@,
        old_value,
        new_value,
    }
}

/// The changes a plugin entry comparison reports: one record per differing
/// field, in the fixed order name, author, description, repo.
pub open spec fn spec_plugin_changes(
    a: PluginEntryView,
    b: PluginEntryView,
    commit: Commit,
) -> Seq<ChangeView> {
    (if a.name != b.name {
        seq![change_of("name"@, commit, a.name, b.name)]
    } else {
        Seq::empty()
    }) + (if a.author != b.author {
        seq![change_of("author"@, commit, a.author, b.author)]
    } else {
        Seq::empty()
    }) + (if a.description != b.description {
        seq![change_of("description"@, commit, a.description, b.description)]
    } else {
        Seq::empty()
    }) + (if a.repo != b.repo {
        seq![change_of("repo"@, commit, a.repo, b.repo)]
    } else {
        Seq::empty()
    })
}

impl ObsCommunityPlugin {
    /// One change record per differing field; unmodified fields emit
    /// nothing.
    pub fn compare(&self, new: &ObsCommunityPlugin, commit: &Commit) -> (r: Vec<EntryChange>)
        ensures
            r@.map_values(|c: EntryChange| c@) == spec_plugin_changes(self@, new@, *commit),
    {
        let mut changes: Vec<EntryChange> = Vec::new();
        if !self.name.eq(&new.name) {
            changes.push(
                EntryChange {
                    property: String::from_str("name"),
                    commit: commit.clone(),
                    old_value: self.name.clone(),
                    new_value: new.name.clone(),
                },
            );
        }
        if !self.author.eq(&new.author) {
            changes.push(
                EntryChange {
                    property: String::from_str("author"),
                    commit: commit.clone(),
                    old_value: self.author.clone(),
                    new_value: new.author.clone(),
                },
            );
        }
        if !self.description.eq(&new.description) {
            changes.push(
                EntryChange {
                    property: String::from_str("description"),
                    commit: commit.clone(),
                    old_value: self.description.clone(),
                    new_value: new.description.clone(),
                },
            );
        }
        if !self.repo.eq(&new.repo) {
            changes.push(
                EntryChange {
                    property: String::from_str("repo"),
                    commit: commit.clone(),
                    old_value: self.repo.clone(),
                    new_value: new.repo.clone(),
                },
            );
        }
        proof {
            assert(changes@.map_values(|c: EntryChange| c@) =~= spec_plugin_changes(
                self@,
                new@,
                *commit,
            ));
        }
        changes
    }
}

/// What a list of mode names joins to: the pieces with `", "` between them.
pub open spec fn spec_join_comma(ss: Seq<Seq<char>>) -> Seq<char>
    decreases ss.len(),
{
    if ss.len() == 0 {
        Seq::empty()
    } else if ss.len() == 1 {
        ss[0]
    } else {
        spec_join_comma(ss.drop_last()) + ", "@ + ss.last()
    }
}

/// Joins strings with `", "` between them.
pub fn join_comma(items: &Vec<String>) -> (r: String)
    ensures
        r@ == spec_join_comma(Seq::new(items@.len(), |i: int| items@[i]@)),
{
    let ghost views = Seq::new(items@.len(), |i: int| items@[i]@);
    let mut s = String::new();
    let mut i: usize = 0;
    while i < items.len()
        invariant
            i <= items@.len(),
            views == Seq::new(items@.len(), |j: int| items@[j]@),
            s@ == spec_join_comma(views.subrange(0, i as int)),
        decreases items@.len() - i,
    {
        if i > 0 {
            s.append(", ");
        }
        s.append(items[i].as_str());
        proof {
            let pre = views.subrange(0, i as int);
            let now = views.subrange(0, i + 1);
            assert(now.drop_last() =~= pre);
            assert(now.last() == views[i as int]);
            if i == 0 {
                assert(s@ =~= spec_join_comma(now));
            }
        }
        i = i + 1;
    }
    proof {
        assert(views.subrange(0, views.len() as int) =~= views);
    }
    s
}

/// The changes a theme entry comparison reports, in the fixed order name,
/// author, modes, repo; the mode lists are reported joined with commas.
pub open spec fn spec_theme_changes(
    a: ThemeEntryView,
    b: ThemeEntryView,
    commit: Commit,
) -> Seq<ChangeView> {
    (if a.name != b.name {
        seq![change_of("name"@, commit, a.name, b.name)]
    } else {
        Seq::empty()
    }) + (if a.author != b.author {
        seq![change_of("author"@, commit, a.author, b.author)]
    } else {
        Seq::empty()
    }) + (if a.modes != b.modes {
        seq![change_of("modes"@, commit, spec_join_comma(a.modes), spec_join_comma(b.modes))]
    } else {
        Seq::empty()
    }) + (if a.repo != b.repo {
        seq![change_of("repo"@, commit, a.repo, b.repo)]
    } else {
        Seq::empty()
    })
}

/// Whether two mode lists read the same.
fn modes_eq(a: &Vec<String>, b: &Vec<String>) -> (r: bool)
    ensures
        r == (Seq::new(a@.len(), |i: int| a@[i]@) == Seq::new(b@.len(), |i: int| b@[i]@)),
{
    let ghost av = Seq::new(a@.len(), |i: int| a@[i]@);
    let ghost bv = Seq::new(b@.len(), |i: int| b@[i]@);
    if a.len() != b.len() {
        proof {
            assert(av.len() != bv.len());
        }
        return false;
    }
    let mut i: usize = 0;
    while i < a.len()
        invariant
            i <= a@.len(),
            a@.len() == b@.len(),
            av == Seq::new(a@.len(), |j: int| a@[j]@),
            bv == Seq::new(b@.len(), |j: int| b@[j]@),
            forall|j: int| 0 <= j < i ==> av[j] == bv[j],
        decreases a@.len() - i,
    {
        if !a[i].eq(&b[i]) {
            proof {
                assert(av[i as int] != bv[i as int]);
            }
            return false;
        }
        i = i + 1;
    }
    proof {
        assert(av =~= bv);
    }
    true
}

impl ObsCommunityTheme {
    /// One change record per differing field; unmodified fields emit
    /// nothing.
    pub fn compare(&self, new: &ObsCommunityTheme, commit: &Commit) -> (r: Vec<EntryChange>)
        ensures
            r@.map_values(|c: EntryChange| c@) == spec_theme_changes(self@, new@, *commit),
    {
        let mut changes: Vec<EntryChange> = Vec::new();
        if !self.name.eq(&new.name) {
            changes.push(
                EntryChange {
                    property: String::from_str("name"),
                    commit: commit.clone(),
                    old_value: self.name.clone(),
                    new_value: new.name.clone(),
                },
            );
        }
        if !self.author.eq(&new.author) {
            changes.push(
                EntryChange {
                    property: String::from_str("author"),
                    commit: commit.clone(),
                    old_value: self.author.clone(),
                    new_value: new.author.clone(),
                },
            );
        }
        if !modes_eq(&self.modes, &new.modes) {
            changes.push(
                EntryChange {
                    property: String::from_str("modes"),
                    commit: commit.clone(),
                    old_value: join_comma(&self.modes),
                    new_value: join_comma(&new.modes),
                },
            );
        }
        if !self.repo.eq(&new.repo) {
            changes.push(
                EntryChange {
                    property: String::from_str("repo"),
                    commit: commit.clone(),
                    old_value: self.repo.clone(),
                    new_value: new.repo.clone(),
                },
            );
        }
        proof {
            assert(changes@.map_values(|c: EntryChange| c@) =~= spec_theme_changes(
                self@,
                new@,
                *commit,
            ));
        }
        changes
    }
}

/// One entry of the registry's removal list: an id with the stated reason.
#[derive(Debug, Clone)]
pub struct ObsCommunityPluginRemoved {
    pub id: String,
    pub name: String,
    pub reason: String,
}

/// The release feed as its transport shapes it.
#[derive(Debug, Clone)]
pub struct ObsReleasesFeed {
    pub feed: ObsReleasesFeedInner,
}

#[derive(Debug, Clone)]
pub struct ObsReleasesFeedInner {
    pub entries: Vec<ObsReleasesFeedEntry>,
}

/// One release announcement: its id, title, timestamp and body.
#[derive(Debug, Clone)]
pub struct ObsReleasesFeedEntry {
    pub id: String,
    pub title: String,
    pub updated: String,
    pub content: String,
}

/// A full snapshot's plugin list, as read from one commit.
#[derive(Debug, Clone)]
pub struct ObsPluginList(pub Vec<ObsCommunityPlugin>);

impl ObsPluginList {
    pub fn get(&self) -> (r: &Vec<ObsCommunityPlugin>)
        ensures
            r == &self.0,
    {
        &self.0
    }
}

/// A full snapshot's theme list, as read from one commit.
#[derive(Debug, Clone)]
pub struct ObsThemeList(pub Vec<ObsCommunityTheme>);

impl ObsThemeList {
    pub fn get(&self) -> (r: &Vec<ObsCommunityTheme>)
        ensures
            r == &self.0,
    {
        &self.0
    }
}

} // verus!
