//! Shared record and report types: field changes, download series, version
//! history entries, and the plain data points the report queries produce.

use vstd::prelude::*;

use crate::commit::{Commit, StringCommit};
use crate::date::{day_index, spec_date_string, valid_date, Date};
use crate::version::{spec_pre_view, Version};

verus! {

/// One observed field transition, carrying the commit at which it was first
/// observed.
#[derive(Debug)]
pub struct EntryChange {
    pub property: String,
    pub commit: Commit,
    pub old_value: String,
    pub new_value: String,
}

/// The mathematical content of an [`EntryChange`].
#[verifier::ext_equal]
pub struct ChangeView {
    pub property: Seq<char>,
    pub commit_date: Date,
    pub commit_hash: Seq<char>,
    pub old_value: Seq<char>,
    pub new_value: Seq<char>,
}

impl View for EntryChange {
    type V = ChangeView;

    open spec fn view(&self) -> ChangeView {
        ChangeView {
            property: self.property@,
            commit_date: self.commit.date,
            commit_hash: self.commit.hash@,
            old_value: self.old_value@,
            new_value: self.new_value@,
        }
    }
}

impl Clone for EntryChange {
    fn clone(&self) -> (r: EntryChange)
        ensures
            r@ == self@,
    {
        let r = EntryChange {
            property: self.property.clone(),
            commit: self.commit.clone(),
            old_value: self.old_value.clone(),
            new_value: self.new_value.clone(),
        };
        proof {
            assert(r@ == self@);
        }
        r
    }
}

/// An [`EntryChange`] with the commit date printed, for report consumers.
#[derive(Debug, Clone)]
pub struct EntryChangeDataPoint {
    pub property: String,
    pub commit: StringCommit,
    pub old_value: String,
    pub new_value: String,
}

impl EntryChange {
    pub fn to_data_point(&self) -> (r: EntryChangeDataPoint)
        ensures
            r.property@ == self.property@,
            r.commit.date@ == spec_date_string(self.commit.date),
            r.commit.hash@ == self.commit.hash@,
            r.old_value@ == self.old_value@,
            r.new_value@ == self.new_value@,
    {
        EntryChangeDataPoint {
            property: self.property.clone(),
            commit: self.commit.to_string_commit(),
            old_value: self.old_value.clone(),
            new_value: self.new_value.clone(),
        }
    }
}

/// One observed download count.
#[derive(Debug, Clone, Copy, PartialEq, Eq, Structural)]
pub struct DownloadRecord {
    pub date: Date,
    pub downloads: u32,
}

/// The sparse date-to-count download series of one entity, kept in strictly
/// increasing date order with valid dates.
#[derive(Debug, Clone)]
pub struct DownloadHistory(pub Vec<DownloadRecord>);

/// Dates valid, strictly increasing.
pub open spec fn download_history_wf(h: Seq<DownloadRecord>) -> bool {
    &&& forall|i: int| 0 <= i < h.len() ==> valid_date((#[trigger] h[i]).date)
    &&& forall|i: int, j: int|
        0 <= i < j < h.len() ==> day_index((#[trigger] h[i]).date) < day_index(
            (#[trigger] h[j]).date,
        )
}

/// The count recorded at exactly this date, if any.
pub open spec fn spec_downloads_at(h: Seq<DownloadRecord>, d: Date) -> Option<u32>
    decreases h.len(),
{
    if h.len() == 0 {
        Option::None
    } else if h[0].date == d {
        Option::Some(h[0].downloads)
    } else {
        spec_downloads_at(h.skip(1), d)
    }
}

impl DownloadHistory {
    pub fn new() -> (r: DownloadHistory)
        ensures
            r.0@.len() == 0,
    {
        DownloadHistory(Vec::new())
    }

    /// The count observed at exactly this date.
    pub fn get_at(&self, d: &Date) -> (r: Option<u32>)
        ensures
            r == spec_downloads_at(self.0@, *d),
    {
        let mut i: usize = 0;
        let ghost h = self.0@;
        proof {
            assert(h.skip(0) =~= h);
        }
        while i < self.0.len()
            invariant
                i <= h.len(),
                h == self.0@,
                spec_downloads_at(h, *d) == spec_downloads_at(h.skip(i as int), *d),
            decreases h.len() - i,
        {
            proof {
                assert(h.skip(i as int)[0] == h[i as int]);
                assert(h.skip(i as int).skip(1) =~= h.skip(i + 1));
            }
            if self.0[i].date == *d {
                return Some(self.0[i].downloads);
            }
            i = i + 1;
        }
        proof {
            assert(h.skip(h.len() as int) =~= Seq::<DownloadRecord>::empty());
        }
        None
    }
}

/// A named weekly sample of an entity's downloads, with the change from the
/// previous period when both are defined.
#[derive(Debug, Clone)]
pub struct DownloadDataPoint {
    pub date: String,
    pub downloads: Option<u32>,
    pub delta: Option<u32>,
}

/// One reconstructed release: the raw version string, its parsed form, and
/// the date it was first observed.
#[derive(Debug)]
pub struct VersionHistory {
    pub version: String,
    pub version_object: Option<Version>,
    pub initial_release_date: Date,
}

impl Clone for VersionHistory {
    fn clone(&self) -> (r: VersionHistory)
        ensures
            r.version@ == self.version@,
            r.initial_release_date == self.initial_release_date,
            match (r.version_object, self.version_object) {
                (Option::Some(a), Option::Some(b)) => a.major == b.major && a.minor == b.minor
                    && a.patch == b.patch && spec_pre_view(a.pre_release) == spec_pre_view(
                    b.pre_release,
                ),
                (Option::None, Option::None) => true,
                _ => false,
            },
    {
        VersionHistory {
            version: self.version.clone(),
            version_object: match &self.version_object {
                Option::Some(v) => Option::Some(v.clone()),
                Option::None => Option::None,
            },
            initial_release_date: self.initial_release_date,
        }
    }
}

/// A version release as reports show it.
#[derive(Debug, Clone)]
pub struct VersionDataPoint {
    pub version: String,
    pub date: String,
    pub deprecated: bool,
}

/// The identity card of one entity.
#[derive(Debug, Clone)]
pub struct OverviewDataPoint {
    pub id: String,
    pub name: String,
    pub author: String,
    pub repo: String,
    pub repo_url: String,
    pub added_commit: StringCommit,
    pub removed_commit: Option<StringCommit>,
}

/// One entity's standing at its addition date.
#[derive(Debug, Clone)]
pub struct IndividualDownloadDataPoint {
    pub id: String,
    pub name: String,
    pub date: String,
    pub downloads: u32,
    pub version_count: u32,
}

/// One ranked entity in the most-downloaded report.
#[derive(Debug, Clone)]
pub struct HallOfFameDataPoint {
    pub id: String,
    pub name: String,
    pub downloads_new: u32,
    pub downloads_start: u32,
    pub data: Vec<DownloadDataPoint>,
}

/// Additions and removals of one month, with the running totals.
#[derive(Debug, Clone)]
pub struct CountMonthlyDataPoint {
    pub date: String,
    pub total: u32,
    pub total_with_removed: u32,
    pub new: u32,
    pub new_removed: u32,
}

/// Removal counts among the entities released in one month.
#[derive(Debug, Clone)]
pub struct RemovedByReleaseCount {
    pub date: String,
    pub removed: u32,
    pub released: u32,
}

} // verus!
