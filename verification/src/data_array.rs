//! The entity collection and the read-only query engine over it.
//!
//! A [`PluginDataArray`] owns the reconstructed lifecycle records, enriched
//! with the optional repository-scan data. A [`PluginDataArrayView`] is an
//! ordered index subset over it: sortable, truncatable, and the anchor for
//! every report query — weekly download rollups with deltas, monthly
//! addition and removal counts, and the most-downloaded ranking.

use vstd::prelude::*;

use crate::commit::StringCommit;
use crate::common::{
    download_history_wf, CountMonthlyDataPoint, DownloadDataPoint, DownloadRecord,
    EntryChangeDataPoint, IndividualDownloadDataPoint, OverviewDataPoint, RemovedByReleaseCount,
    VersionDataPoint,
};
use crate::date::{
    date_le, date_lt, day_index, lemma_date_order_index, spec_date_le, spec_date_lt, valid_date,
    Date,
};
use crate::license::{clone_descriptions, descs_eq, LicenseData, Licenses};
use crate::plugin::{spec_license_string, LicenseInfo, PluginData, PluginExtraData, PluginRepoData};

verus! {

/// A lifecycle record together with the optional repository-scan data.
#[derive(Debug)]
pub struct FullPluginData {
    pub data: PluginData,
    pub extended: Option<PluginExtraData>,
}

/// The first record of the download series, in series order, whose date
/// falls in the window (inclusive below, exclusive above, by day index).
pub open spec fn spec_first_in_window(h: Seq<DownloadRecord>, lo: int, hi: int) -> Option<u32>
    decreases h.len(),
{
    if h.len() == 0 {
        Option::None
    } else if lo <= day_index(h[0].date) < hi {
        Option::Some(h[0].downloads)
    } else {
        spec_first_in_window(h.skip(1), lo, hi)
    }
}

/// The last record of the download series, in series order, whose date
/// falls in the window (inclusive on both ends, by day index).
pub open spec fn spec_last_in_window(h: Seq<DownloadRecord>, lo: int, hi: int) -> Option<u32>
    decreases h.len(),
{
    if h.len() == 0 {
        Option::None
    } else if lo <= day_index(h.last().date) <= hi {
        Option::Some(h.last().downloads)
    } else {
        spec_last_in_window(h.drop_last(), lo, hi)
    }
}

/// The date the entity last saw activity: its latest release, or its
/// addition date when it never released.
pub open spec fn spec_last_updated(p: PluginData) -> Date {
    if p.version_history@.len() > 0 {
        p.version_history@.last().initial_release_date
    } else {
        p.added_commit.date
    }
}

impl FullPluginData {
    pub fn new(data: PluginData, extended: Option<PluginExtraData>) -> (r: FullPluginData)
        ensures
            r.data == data,
            r.extended == extended,
    {
        FullPluginData { data, extended }
    }

    pub fn extended(&self) -> (r: Option<&PluginExtraData>)
        ensures
            match r {
                Option::Some(e) => self.extended == Option::Some(*e),
                Option::None => self.extended is None,
            },
    {
        match &self.extended {
            Option::Some(e) => Some(e),
            Option::None => None,
        }
    }

    /// The repository scan, when one succeeded.
    pub fn repo_data(&self) -> (r: Option<&PluginRepoData>)
        ensures
            match r {
                Option::Some(d) => self.extended matches Option::Some(e) && e.repo
                    == Result::<PluginRepoData, String>::Ok(*d),
                Option::None => match self.extended {
                    Option::Some(e) => !(e.repo is Ok),
                    Option::None => true,
                },
            },
    {
        match &self.extended {
            Option::Some(e) => match &e.repo {
                Result::Ok(d) => Some(d),
                Result::Err(_) => None,
            },
            Option::None => None,
        }
    }

    pub fn has_repo_data(&self) -> (r: bool)
        ensures
            r == match self.extended {
                Option::Some(e) => e.repo is Ok,
                Option::None => false,
            },
    {
        self.repo_data().is_some()
    }

    /// The count observed at exactly this date.
    pub fn get_downloads_at(&self, date: &Date) -> (r: Option<u32>)
        ensures
            r == crate::common::spec_downloads_at(self.data.download_history.0@, *date),
    {
        self.data.download_history.get_at(date)
    }

    /// The earliest sample within the week starting at `date`: the nearest
    /// available observation, not a strict same-day lookup.
    pub fn find_downloads_in_week(&self, date: &Date) -> (r: Option<u32>)
        requires
            valid_date(*date),
            date.year <= 2_000_000,
            download_history_wf(self.data.download_history.0@),
        ensures
            r == spec_first_in_window(
                self.data.download_history.0@,
                day_index(*date),
                day_index(*date) + 7,
            ),
    {
        let mut hi = *date;
        hi.advance_days(7);
        let h = &self.data.download_history.0;
        let ghost hs = h@;
        let mut i: usize = 0;
        proof {
            assert(hs.skip(0) =~= hs);
        }
        while i < h.len()
            invariant
                i <= hs.len(),
                hs == self.data.download_history.0@,
                download_history_wf(hs),
                valid_date(hi),
                day_index(hi) == day_index(*date) + 7,
                spec_first_in_window(hs, day_index(*date), day_index(*date) + 7)
                    == spec_first_in_window(
                    hs.skip(i as int),
                    day_index(*date),
                    day_index(*date) + 7,
                ),
            decreases hs.len() - i,
        {
            proof {
                assert(hs.skip(i as int)[0] == hs[i as int]);
                assert(hs.skip(i as int).skip(1) =~= hs.skip(i + 1));
                lemma_date_order_index(*date, hs[i as int].date);
                lemma_date_order_index(hs[i as int].date, hi);
            }
            let rec = &h[i];
            if date_le(date, &rec.date) && date_lt(&rec.date, &hi) {
                return Some(rec.downloads);
            }
            i = i + 1;
        }
        proof {
            assert(hs.skip(hs.len() as int) =~= Seq::<DownloadRecord>::empty());
        }
        None
    }

    /// The first sample at or after `date`, up to `end` inclusive.
    pub fn find_downloads_after_date(&self, date: &Date, end: &Date) -> (r: Option<u32>)
        requires
            valid_date(*date),
            valid_date(*end),
            download_history_wf(self.data.download_history.0@),
        ensures
            r == spec_first_in_window(
                self.data.download_history.0@,
                day_index(*date),
                day_index(*end) + 1,
            ),
    {
        let h = &self.data.download_history.0;
        let ghost hs = h@;
        let mut i: usize = 0;
        proof {
            assert(hs.skip(0) =~= hs);
        }
        while i < h.len()
            invariant
                i <= hs.len(),
                hs == self.data.download_history.0@,
                download_history_wf(hs),
                spec_first_in_window(hs, day_index(*date), day_index(*end) + 1)
                    == spec_first_in_window(
                    hs.skip(i as int),
                    day_index(*date),
                    day_index(*end) + 1,
                ),
            decreases hs.len() - i,
        {
            proof {
                assert(hs.skip(i as int)[0] == hs[i as int]);
                assert(hs.skip(i as int).skip(1) =~= hs.skip(i + 1));
                lemma_date_order_index(*date, hs[i as int].date);
                lemma_date_order_index(hs[i as int].date, *end);
            }
            let rec = &h[i];
            if date_le(date, &rec.date) && date_le(&rec.date, end) {
                return Some(rec.downloads);
            }
            i = i + 1;
        }
        proof {
            assert(hs.skip(hs.len() as int) =~= Seq::<DownloadRecord>::empty());
        }
        None
    }

    /// The last sample at or before `date`, back to the entity's addition
    /// date inclusive.
    pub fn find_downloads_before_date(&self, date: &Date) -> (r: Option<u32>)
        requires
            valid_date(*date),
            download_history_wf(self.data.download_history.0@),
            valid_date(self.data.added_commit.date),
        ensures
            r == spec_last_in_window(
                self.data.download_history.0@,
                day_index(self.data.added_commit.date),
                day_index(*date),
            ),
    {
        let start = self.data.added_commit.date;
        let h = &self.data.download_history.0;
        let ghost hs = h@;
        let mut i: usize = h.len();
        proof {
            assert(hs.subrange(0, hs.len() as int) =~= hs);
        }
        while i > 0
            invariant
                i <= hs.len(),
                hs == self.data.download_history.0@,
                download_history_wf(hs),
                start == self.data.added_commit.date,
                valid_date(start),
                spec_last_in_window(hs, day_index(start), day_index(*date)) == spec_last_in_window(
                    hs.subrange(0, i as int),
                    day_index(start),
                    day_index(*date),
                ),
            decreases i,
        {
            let ghost pre = hs.subrange(0, i as int);
            proof {
                assert(pre.last() == hs[i - 1]);
                assert(pre.drop_last() =~= hs.subrange(0, i - 1));
                lemma_date_order_index(start, hs[i - 1].date);
                lemma_date_order_index(hs[i - 1].date, *date);
            }
            let rec = &h[i - 1];
            if date_le(&start, &rec.date) && date_le(&rec.date, date) {
                return Some(rec.downloads);
            }
            i = i - 1;
        }
        proof {
            assert(hs.subrange(0, 0) =~= Seq::<DownloadRecord>::empty());
        }
        None
    }

    /// Whether the entity was added in the given month.
    pub fn released_in_month(&self, date: &Date) -> (r: bool)
        ensures
            r == (self.data.added_commit.date.month == date.month
                && self.data.added_commit.date.year == date.year),
    {
        self.data.added_commit.date.month == date.month && self.data.added_commit.date.year
            == date.year
    }

    /// Whether the entity was removed in the given month.
    pub fn removed_in_month(&self, date: &Date) -> (r: bool)
        ensures
            r == match self.data.removed_commit {
                Option::Some(c) => c.date.month == date.month && c.date.year == date.year,
                Option::None => false,
            },
    {
        match &self.data.removed_commit {
            Option::Some(removed_commit) => removed_commit.date.month == date.month
                && removed_commit.date.year == date.year,
            Option::None => false,
        }
    }

    /// The entity's most recent activity date.
    pub fn last_updated(&self) -> (r: Date)
        ensures
            r == spec_last_updated(self.data),
    {
        let len = self.data.version_history.len();
        if len > 0 {
            self.data.version_history[len - 1].initial_release_date
        } else {
            self.data.added_commit.date
        }
    }

    pub fn id(&self) -> (r: String)
        ensures
            r@ == self.data.id@,
    {
        self.data.id.clone()
    }

    pub fn name(&self) -> (r: String)
        ensures
            r@ == self.data.current_entry.name@,
    {
        self.data.current_entry.name.clone()
    }

    pub fn author(&self) -> (r: String)
        ensures
            r@ == self.data.current_entry.author@,
    {
        self.data.current_entry.author.clone()
    }

    pub fn description(&self) -> (r: String)
        ensures
            r@ == self.data.current_entry.description@,
    {
        self.data.current_entry.description.clone()
    }

    pub fn repo(&self) -> (r: String)
        ensures
            r@ == self.data.current_entry.repo@,
    {
        self.data.current_entry.repo.clone()
    }

    /// The entry's repository page.
    pub fn repo_url(&self) -> (r: String)
        ensures
            r@ == "https://github.com/"@ + self.data.current_entry.repo@,
    {
        let mut s = String::from_str("https://github.com/");
        s.append(self.data.current_entry.repo.as_str());
        s
    }

    pub fn added_commit(&self) -> (r: StringCommit)
        ensures
            r.date@ == crate::date::spec_date_string(self.data.added_commit.date),
            r.hash@ == self.data.added_commit.hash@,
    {
        self.data.added_commit.to_string_commit()
    }

    pub fn removed_commit(&self) -> (r: Option<StringCommit>)
        ensures
            match r {
                Option::Some(c) => self.data.removed_commit matches Option::Some(rc) && c.date@
                    == crate::date::spec_date_string(rc.date) && c.hash@ == rc.hash@,
                Option::None => self.data.removed_commit is None,
            },
    {
        match &self.data.removed_commit {
            Option::Some(c) => Some(c.to_string_commit()),
            Option::None => None,
        }
    }

    pub fn download_count(&self) -> (r: u32)
        ensures
            r == self.data.download_count,
    {
        self.data.download_count
    }

    /// The latest release's date as text, when there was a release.
    pub fn last_updated_date(&self) -> (r: Option<String>)
        ensures
            match r {
                Option::Some(s) => self.data.version_history@.len() > 0 && s@
                    == crate::date::spec_date_string(
                    self.data.version_history@.last().initial_release_date,
                ),
                Option::None => self.data.version_history@.len() == 0,
            },
    {
        let len = self.data.version_history.len();
        if len > 0 {
            Some(self.data.version_history[len - 1].initial_release_date.to_fancy_string())
        } else {
            None
        }
    }

    /// The reconstructed releases as report rows; a release is flagged
    /// deprecated when the auxiliary data lists its version string.
    pub fn versions(&self) -> (r: Vec<VersionDataPoint>)
        ensures
            r@.len() == self.data.version_history@.len(),
            forall|i: int|
                0 <= i < r@.len() ==> (#[trigger] r@[i]).version@
                    == self.data.version_history@[i].version@ && r@[i].date@
                    == crate::date::spec_date_string(
                    self.data.version_history@[i].initial_release_date,
                ) && r@[i].deprecated == match self.extended {
                    Option::Some(e) => spec_string_list_contains(
                        e.deprecated_versions@,
                        self.data.version_history@[i].version@,
                    ),
                    Option::None => false,
                },
    {
        let mut r: Vec<VersionDataPoint> = Vec::new();
        let mut i: usize = 0;
        while i < self.data.version_history.len()
            invariant
                i <= self.data.version_history@.len(),
                r@.len() == i as int,
                forall|j: int|
                    0 <= j < i ==> (#[trigger] r@[j]).version@
                        == self.data.version_history@[j].version@ && r@[j].date@
                        == crate::date::spec_date_string(
                        self.data.version_history@[j].initial_release_date,
                    ) && r@[j].deprecated == match self.extended {
                        Option::Some(e) => spec_string_list_contains(
                            e.deprecated_versions@,
                            self.data.version_history@[j].version@,
                        ),
                        Option::None => false,
                    },
            decreases self.data.version_history@.len() - i,
        {
            let vh = &self.data.version_history[i];
            let deprecated = match &self.extended {
                Option::Some(e) => string_list_contains(&e.deprecated_versions, vh.version.as_str()),
                Option::None => false,
            };
            r.push(
                VersionDataPoint {
                    version: vh.version.clone(),
                    date: vh.initial_release_date.to_fancy_string(),
                    deprecated,
                },
            );
            i = i + 1;
        }
        r
    }

    /// The deep link to the entity, absent once it was removed.
    pub fn obsidian_url(&self) -> (r: Option<String>)
        ensures
            match r {
                Option::Some(s) => self.data.removed_commit is None && s@
                    == "obsidian://show-plugin?id="@ + self.data.id@,
                Option::None => self.data.removed_commit is Some,
            },
    {
        match &self.data.removed_commit {
            Option::Some(_) => None,
            Option::None => {
                let mut s = String::from_str("obsidian://show-plugin?id=");
                s.append(self.data.id.as_str());
                Some(s)
            },
        }
    }

    /// The license the repository's license file names.
    pub fn license_file(&self) -> (r: String)
        ensures
            r@ == match spec_repo_of(*self) {
                Option::Some(repo) => crate::plugin::spec_license_string(repo.file_license),
                Option::None => "Not Found"@,
            },
    {
        match self.repo_data() {
            Option::Some(repo) => repo.file_license.to_fancy_string(),
            Option::None => crate::plugin::LicenseInfo::NotFound.to_fancy_string(),
        }
    }

    /// The license the package manifest names.
    pub fn license_package_json(&self) -> (r: String)
        ensures
            r@ == match spec_repo_of(*self) {
                Option::Some(repo) => crate::plugin::spec_license_string(
                    repo.package_json_license,
                ),
                Option::None => "Not Found"@,
            },
    {
        match self.repo_data() {
            Option::Some(repo) => repo.package_json_license.to_fancy_string(),
            Option::None => crate::plugin::LicenseInfo::NotFound.to_fancy_string(),
        }
    }

    pub fn uses_typescript(&self) -> (r: Option<bool>)
        ensures
            r == match spec_repo_of(*self) {
                Option::Some(repo) => Option::Some(repo.uses_typescript),
                Option::None => Option::<bool>::None,
            },
    {
        match self.repo_data() {
            Option::Some(repo) => Some(repo.uses_typescript),
            Option::None => None,
        }
    }

    pub fn has_beta_manifest(&self) -> (r: Option<bool>)
        ensures
            r == match spec_repo_of(*self) {
                Option::Some(repo) => Option::Some(repo.has_beta_manifest),
                Option::None => Option::<bool>::None,
            },
    {
        match self.repo_data() {
            Option::Some(repo) => Some(repo.has_beta_manifest),
            Option::None => None,
        }
    }

    pub fn has_package_json(&self) -> (r: Option<bool>)
        ensures
            r == match spec_repo_of(*self) {
                Option::Some(repo) => Option::Some(repo.has_package_json),
                Option::None => Option::<bool>::None,
            },
    {
        match self.repo_data() {
            Option::Some(repo) => Some(repo.has_package_json),
            Option::None => None,
        }
    }

    pub fn has_test_files(&self) -> (r: Option<bool>)
        ensures
            r == match spec_repo_of(*self) {
                Option::Some(repo) => Option::Some(repo.has_test_files),
                Option::None => Option::<bool>::None,
            },
    {
        match self.repo_data() {
            Option::Some(repo) => Some(repo.has_test_files),
            Option::None => None,
        }
    }

    pub fn is_desktop_only(&self) -> (r: Option<bool>)
        ensures
            r == match spec_repo_of(*self) {
                Option::Some(repo) => repo.manifest.is_desktop_only,
                Option::None => Option::<bool>::None,
            },
    {
        match self.repo_data() {
            Option::Some(repo) => repo.manifest.is_desktop_only,
            Option::None => None,
        }
    }

    /// Whether the scanned repository depends on the package, directly or
    /// for development.
    pub fn has_dependency(&self, dependency: &str) -> (r: Option<bool>)
        ensures
            r == match spec_repo_of(*self) {
                Option::Some(repo) => Option::Some(
                    spec_string_list_contains(repo.dependencies@, dependency@)
                        || spec_string_list_contains(repo.dev_dependencies@, dependency@),
                ),
                Option::None => Option::<bool>::None,
            },
    {
        match self.repo_data() {
            Option::Some(repo) => Some(
                string_list_contains(&repo.dependencies, dependency) || string_list_contains(
                    &repo.dev_dependencies,
                    dependency,
                ),
            ),
            Option::None => None,
        }
    }

    /// The entity's own weekly series from its addition through its removal
    /// or the cutoff: the week's sample when it is positive, and the gain
    /// from the previous week when both weeks have one.
    pub fn download_data_points(&self, fallback_end: &Date) -> (r: Vec<DownloadDataPoint>)
        requires
            download_history_wf(self.data.download_history.0@),
            valid_date(self.data.added_commit.date),
            1 <= self.data.added_commit.date.year <= 1_000_000,
            valid_date(*fallback_end),
            fallback_end.year <= 1_000_000,
        ensures
            ({
                let h = self.data.download_history.0@;
                let start = self.data.added_commit.date;
                forall|k: int|
                    0 <= k < r@.len() ==> {
                        let lo = day_index(start) + 7 * k;
                        let cur = spec_sample_opt(spec_first_in_window(h, lo, lo + 7));
                        let prev = spec_sample_opt(spec_first_in_window(h, lo - 7, lo));
                        &&& (#[trigger] r@[k]).downloads == cur
                        &&& r@[k].delta == spec_delta(cur, prev)
                    }
            }),
    {
        let start = self.data.added_commit.date;
        let end = match &self.data.removed_commit {
            Option::Some(c) => if c.date.is_valid() && c.date.year <= 1_000_000 {
                c.date
            } else {
                *fallback_end
            },
            Option::None => *fallback_end,
        };
        let dates = start.iterate_weekly_to(&end);
        let mut r: Vec<DownloadDataPoint> = Vec::new();
        let mut k: usize = 0;
        while k < dates.len()
            invariant
                k <= dates@.len(),
                download_history_wf(self.data.download_history.0@),
                valid_date(start),
                start == self.data.added_commit.date,
                1 <= start.year <= 1_000_000,
                forall|i: int|
                    0 <= i < dates@.len() ==> valid_date(#[trigger] dates@[i]) && day_index(
                        dates@[i],
                    ) == day_index(start) + 7 * i && dates@[i].year <= 1_000_000,
                r@.len() == k as int,
                forall|j: int|
                    0 <= j < k ==> {
                        let lo = day_index(start) + 7 * j;
                        let cur = spec_sample_opt(
                            spec_first_in_window(self.data.download_history.0@, lo, lo + 7),
                        );
                        let prev = spec_sample_opt(
                            spec_first_in_window(self.data.download_history.0@, lo - 7, lo),
                        );
                        &&& (#[trigger] r@[j]).downloads == cur
                        &&& r@[j].delta == spec_delta(cur, prev)
                    },
            decreases dates@.len() - k,
        {
            let date = dates[k];
            proof {
                crate::date::lemma_year_offset_mono(0, start.year);
                crate::date::lemma_day_in_year_bounds(start);
                crate::date::lemma_days_before_month_mono(start.year, 1, start.month);
            }
            let mut prev_date = date;
            prev_date.reverse_days(7);
            let cur_sample = self.find_downloads_in_week(&date);
            let prev_sample = self.find_downloads_in_week(&prev_date);
            let downloads = match cur_sample {
                Option::Some(d) => if d > 0 {
                    Some(d)
                } else {
                    None
                },
                Option::None => None,
            };
            let previous = match prev_sample {
                Option::Some(d) => if d > 0 {
                    Some(d)
                } else {
                    None
                },
                Option::None => None,
            };
            let delta = match (downloads, previous) {
                (Option::Some(d), Option::Some(pd)) => if d >= pd {
                    Some(d - pd)
                } else {
                    None
                },
                _ => None,
            };
            r.push(DownloadDataPoint { date: date.to_fancy_string(), downloads, delta });
            k = k + 1;
        }
        r
    }

    /// The change log as report rows.
    pub fn changes(&self) -> (r: Vec<EntryChangeDataPoint>)
        ensures
            r@.len() == self.data.change_history@.len(),
            forall|i: int|
                0 <= i < r@.len() ==> (#[trigger] r@[i]).property@
                    == self.data.change_history@[i]@.property && r@[i].old_value@
                    == self.data.change_history@[i]@.old_value && r@[i].new_value@
                    == self.data.change_history@[i]@.new_value && r@[i].commit.date@
                    == crate::date::spec_date_string(self.data.change_history@[i]@.commit_date)
                    && r@[i].commit.hash@ == self.data.change_history@[i]@.commit_hash,
    {
        let mut r: Vec<EntryChangeDataPoint> = Vec::new();
        let mut i: usize = 0;
        while i < self.data.change_history.len()
            invariant
                i <= self.data.change_history@.len(),
                r@.len() == i as int,
                forall|j: int|
                    0 <= j < i ==> (#[trigger] r@[j]).property@
                        == self.data.change_history@[j]@.property && r@[j].old_value@
                        == self.data.change_history@[j]@.old_value && r@[j].new_value@
                        == self.data.change_history@[j]@.new_value && r@[j].commit.date@
                        == crate::date::spec_date_string(
                        self.data.change_history@[j]@.commit_date,
                    ) && r@[j].commit.hash@ == self.data.change_history@[j]@.commit_hash,
            decreases self.data.change_history@.len() - i,
        {
            r.push(self.data.change_history[i].to_data_point());
            i = i + 1;
        }
        r
    }
}

/// The entity collection: one enriched record per entity.
#[derive(Debug)]
pub struct PluginDataArray {
    pub data: Vec<FullPluginData>,
}

impl PluginDataArray {
    /// Pairs every lifecycle record with the auxiliary data of the same id.
    pub fn new(data: Vec<PluginData>, extended: Vec<PluginExtraData>) -> (r: PluginDataArray)
        ensures
            r.data@.len() == data@.len(),
            forall|i: int| 0 <= i < data@.len() ==> (#[trigger] r.data@[i]).data == data@[i],
            forall|i: int|
                0 <= i < data@.len() ==> ((#[trigger] r.data@[i]).extended is Some
                    <==> spec_has_extra(extended@, data@[i].id@)),
    {
        let ghost orig = data@;
        let mut src = data;
        let mut out: Vec<FullPluginData> = Vec::new();
        proof {
            assert(src@ =~= orig.subrange(0, orig.len() as int));
        }
        while src.len() > 0
            invariant
                out@.len() + src@.len() == orig.len(),
                src@ == orig.subrange(out@.len() as int, orig.len() as int),
                forall|i: int| 0 <= i < out@.len() ==> (#[trigger] out@[i]).data == orig[i],
                forall|i: int|
                    0 <= i < out@.len() ==> ((#[trigger] out@[i]).extended is Some
                        <==> spec_has_extra(extended@, orig[i].id@)),
            decreases src@.len(),
        {
            let ghost k = out@.len() as int;
            let d = src.remove(0);
            proof {
                assert(d == orig[k]);
                assert(src@ =~= orig.subrange(k + 1, orig.len() as int));
            }
            let ext = find_extra(&extended, d.id.as_str());
            out.push(FullPluginData { data: d, extended: ext });
        }
        PluginDataArray { data: out }
    }

    pub fn view_of(&self) -> (r: PluginDataArrayView)
        ensures
            r.indices@.len() == self.data@.len(),
            forall|i: int| 0 <= i < r.indices@.len() ==> #[trigger] r.indices@[i] == i,
    {
        PluginDataArrayView::new(self.data.len())
    }
}

/// Whether the auxiliary list holds an entry with this id.
pub open spec fn spec_has_extra(extended: Seq<PluginExtraData>, id: Seq<char>) -> bool {
    exists|i: int| 0 <= i < extended.len() && (#[trigger] extended[i]).id@ == id
}

/// A copy of the first auxiliary entry with this id, if any.
fn find_extra(extended: &Vec<PluginExtraData>, id: &str) -> (r: Option<PluginExtraData>)
    ensures
        r is Some <==> spec_has_extra(extended@, id@),
{
    let mut i: usize = 0;
    while i < extended.len()
        invariant
            i <= extended@.len(),
            forall|j: int| 0 <= j < i ==> (#[trigger] extended@[j]).id@ != id@,
        decreases extended@.len() - i,
    {
        if crate::digits::str_eq(extended[i].id.as_str(), id) {
            return Some(extended[i].clone());
        }
        i = i + 1;
    }
    None
}

/// The sort keys the view understands.
#[derive(Debug, Clone, Copy, PartialEq, Eq, Structural)]
pub enum PluginDataSortSpec {
    Id,
    Name,
    DateAdded,
    DateRemoved,
    DateUpdated,
    Downloads,
    Versions,
}

/// Order on optional dates: an absent date sorts first.
pub open spec fn spec_opt_date_le(a: Option<Date>, b: Option<Date>) -> bool {
    match (a, b) {
        (Option::None, _) => true,
        (Option::Some(_), Option::None) => false,
        (Option::Some(x), Option::Some(y)) => spec_date_le(x, y),
    }
}

pub open spec fn spec_removed_date(p: PluginData) -> Option<Date> {
    match p.removed_commit {
        Option::Some(c) => Option::Some(c.date),
        Option::None => Option::None,
    }
}

pub open spec fn spec_updated_date(p: PluginData) -> Option<Date> {
    if p.version_history@.len() > 0 {
        Option::Some(p.version_history@.last().initial_release_date)
    } else {
        Option::None
    }
}

/// Order on character sequences used by the textual keys.
pub open spec fn spec_chars_le(a: Seq<char>, b: Seq<char>) -> bool {
    !crate::version::spec_chars_lt(b, a)
}

/// The non-strict order each sort key induces.
pub open spec fn spec_sort_le(spec: PluginDataSortSpec, a: FullPluginData, b: FullPluginData) -> bool {
    match spec {
        PluginDataSortSpec::Id => spec_chars_le(a.data.id@, b.data.id@),
        PluginDataSortSpec::Name => spec_chars_le(
            a.data.current_entry.name@,
            b.data.current_entry.name@,
        ),
        PluginDataSortSpec::DateAdded => spec_date_le(
            a.data.added_commit.date,
            b.data.added_commit.date,
        ),
        PluginDataSortSpec::DateRemoved => spec_opt_date_le(
            spec_removed_date(a.data),
            spec_removed_date(b.data),
        ),
        PluginDataSortSpec::DateUpdated => spec_opt_date_le(
            spec_updated_date(a.data),
            spec_updated_date(b.data),
        ),
        PluginDataSortSpec::Downloads => a.data.download_count <= b.data.download_count,
        PluginDataSortSpec::Versions => a.data.version_history@.len()
            <= b.data.version_history@.len(),
    }
}

/// Every sort key orders totally.
pub proof fn lemma_sort_le_total(spec: PluginDataSortSpec, a: FullPluginData, b: FullPluginData)
    ensures
        spec_sort_le(spec, a, b) || spec_sort_le(spec, b, a),
{
    match spec {
        PluginDataSortSpec::Id => {
            lemma_chars_le_total(a.data.id@, b.data.id@);
        },
        PluginDataSortSpec::Name => {
            lemma_chars_le_total(a.data.current_entry.name@, b.data.current_entry.name@);
        },
        _ => {},
    }
}

/// The character order never points both ways.
proof fn lemma_chars_le_total(a: Seq<char>, b: Seq<char>)
    ensures
        spec_chars_le(a, b) || spec_chars_le(b, a),
    decreases a.len(),
{
    if crate::version::spec_chars_lt(a, b) && crate::version::spec_chars_lt(b, a) {
        if a.len() > 0 && b.len() > 0 && a[0] == b[0] {
            lemma_chars_le_total(a.skip(1), b.skip(1));
        }
    }
}

/// Comparison by a sort key.
fn sort_le(spec: &PluginDataSortSpec, a: &FullPluginData, b: &FullPluginData) -> (r: bool)
    ensures
        r == spec_sort_le(*spec, *a, *b),
{
    match spec {
        PluginDataSortSpec::Id => !crate::version::chars_lt(
            b.data.id.as_str(),
            a.data.id.as_str(),
        ),
        PluginDataSortSpec::Name => !crate::version::chars_lt(
            b.data.current_entry.name.as_str(),
            a.data.current_entry.name.as_str(),
        ),
        PluginDataSortSpec::DateAdded => date_le(
            &a.data.added_commit.date,
            &b.data.added_commit.date,
        ),
        PluginDataSortSpec::DateRemoved => {
            let ad = match &a.data.removed_commit {
                Option::Some(c) => Some(c.date),
                Option::None => None,
            };
            let bd = match &b.data.removed_commit {
                Option::Some(c) => Some(c.date),
                Option::None => None,
            };
            opt_date_le(&ad, &bd)
        },
        PluginDataSortSpec::DateUpdated => {
            let ad = last_release_date(a);
            let bd = last_release_date(b);
            opt_date_le(&ad, &bd)
        },
        PluginDataSortSpec::Downloads => a.data.download_count <= b.data.download_count,
        PluginDataSortSpec::Versions => a.data.version_history.len()
            <= b.data.version_history.len(),
    }
}

fn opt_date_le(a: &Option<Date>, b: &Option<Date>) -> (r: bool)
    ensures
        r == spec_opt_date_le(*a, *b),
{
    match (a, b) {
        (Option::None, _) => true,
        (Option::Some(_), Option::None) => false,
        (Option::Some(x), Option::Some(y)) => date_le(x, y),
    }
}

fn last_release_date(p: &FullPluginData) -> (r: Option<Date>)
    ensures
        r == spec_updated_date(p.data),
{
    let len = p.data.version_history.len();
    if len > 0 {
        Some(p.data.version_history[len - 1].initial_release_date)
    } else {
        None
    }
}

/// A view into a [`PluginDataArray`]: an ordered index subset that reports
/// can sort and truncate without copying the records.
#[derive(Debug, Clone)]
pub struct PluginDataArrayView {
    pub indices: Vec<usize>,
}

/// Every index points into the collection.
pub open spec fn view_wf(indices: Seq<usize>, datas: Seq<FullPluginData>) -> bool {
    forall|i: int| 0 <= i < indices.len() ==> (#[trigger] indices[i]) < datas.len()
}

impl PluginDataArrayView {
    /// The identity view over a collection of `len` records.
    pub fn new(len: usize) -> (r: PluginDataArrayView)
        ensures
            r.indices@.len() == len,
            forall|i: int| 0 <= i < len ==> #[trigger] r.indices@[i] == i,
    {
        let mut indices: Vec<usize> = Vec::new();
        let mut i: usize = 0;
        while i < len
            invariant
                i <= len,
                indices@.len() == i as int,
                forall|j: int| 0 <= j < i ==> #[trigger] indices@[j] == j,
            decreases len - i,
        {
            indices.push(i);
            i = i + 1;
        }
        PluginDataArrayView { indices }
    }

    pub fn len(&self) -> (r: usize)
        ensures
            r == self.indices@.len(),
    {
        self.indices.len()
    }

    pub fn is_empty(&self) -> (r: bool)
        ensures
            r == (self.indices@.len() == 0),
    {
        self.indices.is_empty()
    }

    /// The record at the view's position `index`.
    pub fn get<'a>(&self, data: &'a PluginDataArray, index: usize) -> (r: &'a FullPluginData)
        requires
            index < self.indices@.len(),
            view_wf(self.indices@, data.data@),
        ensures
            r == &data.data@[self.indices@[index as int] as int],
    {
        &data.data[self.indices[index]]
    }

    /// The ids of the view's records, in view order.
    pub fn get_ids(&self, data: &PluginDataArray) -> (r: Vec<String>)
        requires
            view_wf(self.indices@, data.data@),
        ensures
            r@.len() == self.indices@.len(),
            forall|i: int|
                0 <= i < r@.len() ==> (#[trigger] r@[i])@ == data.data@[self.indices@[i] as int].data.id@,
    {
        let mut r: Vec<String> = Vec::new();
        let mut i: usize = 0;
        while i < self.indices.len()
            invariant
                i <= self.indices@.len(),
                view_wf(self.indices@, data.data@),
                r@.len() == i as int,
                forall|j: int|
                    0 <= j < i ==> (#[trigger] r@[j])@
                        == data.data@[self.indices@[j] as int].data.id@,
            decreases self.indices@.len() - i,
        {
            r.push(data.data[self.indices[i]].data.id.clone());
            i = i + 1;
        }
        r
    }

    /// The first record of the view with this id.
    pub fn get_by_id<'a>(&self, data: &'a PluginDataArray, id: &str) -> (r: Option<
        &'a FullPluginData,
    >)
        requires
            view_wf(self.indices@, data.data@),
        ensures
            match r {
                Option::Some(p) => exists|i: int|
                    0 <= i < self.indices@.len() && *p == data.data@[(
                    #[trigger] self.indices@[i]) as int] && p.data.id@ == id@,
                Option::None => forall|i: int|
                    0 <= i < self.indices@.len() ==> data.data@[(
                    #[trigger] self.indices@[i]) as int].data.id@ != id@,
            },
    {
        let mut i: usize = 0;
        while i < self.indices.len()
            invariant
                i <= self.indices@.len(),
                view_wf(self.indices@, data.data@),
                forall|j: int|
                    0 <= j < i ==> data.data@[(#[trigger] self.indices@[j]) as int].data.id@
                        != id@,
            decreases self.indices@.len() - i,
        {
            let p = &data.data[self.indices[i]];
            if crate::digits::str_eq(p.data.id.as_str(), id) {
                return Some(p);
            }
            i = i + 1;
        }
        None
    }

    /// Keeps only the first `count` positions.
    pub fn truncate_top(&mut self, count: usize)
        ensures
            final(self).indices@ == if count < old(self).indices@.len() {
                old(self).indices@.subrange(0, count as int)
            } else {
                old(self).indices@
            },
    {
        if count < self.indices.len() {
            self.indices.truncate(count);
        }
    }

    /// Keeps only the last `count` positions.
    pub fn truncate_bottom(&mut self, count: usize)
        ensures
            final(self).indices@ == if count < old(self).indices@.len() {
                old(self).indices@.subrange(
                    old(self).indices@.len() - count,
                    old(self).indices@.len() as int,
                )
            } else {
                old(self).indices@
            },
    {
        let len = self.indices.len();
        if count < len {
            let tail = self.indices.split_off(len - count);
            self.indices = tail;
        }
    }

    /// Reorders the view ascending by the key.
    pub fn sort_asc(&mut self, data: &PluginDataArray, spec: PluginDataSortSpec)
        requires
            view_wf(old(self).indices@, data.data@),
        ensures
            view_wf(final(self).indices@, data.data@),
            final(self).indices@.to_multiset() == old(self).indices@.to_multiset(),
            forall|i: int, j: int|
                0 <= i < j < final(self).indices@.len() ==> spec_sort_le(
                    spec,
                    data.data@[(#[trigger] final(self).indices@[i]) as int],
                    data.data@[(#[trigger] final(self).indices@[j]) as int],
                ),
    {
        sort_view(&mut self.indices, data, &spec, true);
    }

    /// Reorders the view descending by the key.
    pub fn sort_desc(&mut self, data: &PluginDataArray, spec: PluginDataSortSpec)
        requires
            view_wf(old(self).indices@, data.data@),
        ensures
            view_wf(final(self).indices@, data.data@),
            final(self).indices@.to_multiset() == old(self).indices@.to_multiset(),
            forall|i: int, j: int|
                0 <= i < j < final(self).indices@.len() ==> spec_sort_le(
                    spec,
                    data.data@[(#[trigger] final(self).indices@[j]) as int],
                    data.data@[(#[trigger] final(self).indices@[i]) as int],
                ),
    {
        sort_view(&mut self.indices, data, &spec, false);
    }
}

/// Whether position `a` sorts no later than position `b` in the requested
/// direction.
pub open spec fn spec_dir_le(
    spec: PluginDataSortSpec,
    datas: Seq<FullPluginData>,
    asc: bool,
    a: usize,
    b: usize,
) -> bool {
    if asc {
        spec_sort_le(spec, datas[a as int], datas[b as int])
    } else {
        spec_sort_le(spec, datas[b as int], datas[a as int])
    }
}

/// Selection sort of the view's indices by the key.
fn sort_view(indices: &mut Vec<usize>, data: &PluginDataArray, spec: &PluginDataSortSpec, asc: bool)
    requires
        view_wf(old(indices)@, data.data@),
    ensures
        view_wf(final(indices)@, data.data@),
        final(indices)@.to_multiset() == old(indices)@.to_multiset(),
        forall|i: int, j: int|
            0 <= i < j < final(indices)@.len() ==> spec_dir_le(
                *spec,
                data.data@,
                asc,
                #[trigger] final(indices)@[i],
                #[trigger] final(indices)@[j],
            ),
{
    broadcast use vstd::seq_lib::group_to_multiset_ensures;

    let mut src: Vec<usize> = Vec::new();
    core::mem::swap(&mut src, indices);
    let ghost orig = src@;
    let mut out: Vec<usize> = Vec::new();
    while src.len() > 0
        invariant
            view_wf(src@, data.data@),
            view_wf(out@, data.data@),
            out@.to_multiset().add(src@.to_multiset()) == orig.to_multiset(),
            forall|i: int, j: int|
                0 <= i < j < out@.len() ==> spec_dir_le(
                    *spec,
                    data.data@,
                    asc,
                    #[trigger] out@[i],
                    #[trigger] out@[j],
                ),
            forall|i: int, j: int|
                0 <= i < out@.len() && 0 <= j < src@.len() ==> spec_dir_le(
                    *spec,
                    data.data@,
                    asc,
                    #[trigger] out@[i],
                    #[trigger] src@[j],
                ),
        decreases src@.len(),
    {
        let mut min: usize = 0;
        let mut k: usize = 1;
        proof {
            lemma_sort_le_total(
                *spec,
                data.data@[src@[0] as int],
                data.data@[src@[0] as int],
            );
        }
        while k < src.len()
            invariant
                min < k <= src@.len(),
                src@.len() > 0,
                view_wf(src@, data.data@),
                forall|j: int|
                    0 <= j < k ==> spec_dir_le(
                        *spec,
                        data.data@,
                        asc,
                        src@[min as int],
                        #[trigger] src@[j],
                    ),
            decreases src@.len() - k,
        {
            let ghost old_min = min as int;
            let better = if asc {
                !sort_le(spec, &data.data[src[min]], &data.data[src[k]])
            } else {
                !sort_le(spec, &data.data[src[k]], &data.data[src[min]])
            };
            if better {
                proof {
                    lemma_sort_le_total(
                        *spec,
                        data.data@[src@[min as int] as int],
                        data.data@[src@[k as int] as int],
                    );
                }
                min = k;
                proof {
                    assert forall|j: int| 0 <= j < k + 1 implies spec_dir_le(
                        *spec,
                        data.data@,
                        asc,
                        src@[min as int],
                        #[trigger] src@[j],
                    ) by {
                        if j < k {
                            lemma_sort_le_trans_key(
                                *spec,
                                data.data@[src@[min as int] as int],
                                data.data@[src@[old_min] as int],
                                data.data@[src@[j] as int],
                                asc,
                            );
                        } else {
                            lemma_sort_le_total(
                                *spec,
                                data.data@[src@[min as int] as int],
                                data.data@[src@[min as int] as int],
                            );
                        }
                    }
                }
            }
            k = k + 1;
        }
        let ghost pre_src = src@;
        let ghost pre_out = out@;
        let picked = src.remove(min);
        out.push(picked);
        proof {
            assert(out@.to_multiset().add(src@.to_multiset()) =~= pre_out.to_multiset().add(
                pre_src.to_multiset(),
            ));
            assert forall|i: int, j: int|
                0 <= i < out@.len() && 0 <= j < src@.len() implies spec_dir_le(
                *spec,
                data.data@,
                asc,
                #[trigger] out@[i],
                #[trigger] src@[j],
            ) by {
                if j < min {
                    assert(src@[j] == pre_src[j]);
                } else {
                    assert(src@[j] == pre_src[j + 1]);
                }
                if i < pre_out.len() {
                    assert(out@[i] == pre_out[i]);
                } else {
                    assert(out@[i] == picked);
                }
            }
        }
    }
    proof {
        assert(src@.to_multiset() =~= vstd::multiset::Multiset::<usize>::empty());
        assert(out@.to_multiset() =~= orig.to_multiset());
    }
    *indices = out;
}

/// The directional key order chains, so a least element stays least.
proof fn lemma_sort_le_trans_key(
    spec: PluginDataSortSpec,
    a: FullPluginData,
    b: FullPluginData,
    c: FullPluginData,
    asc: bool,
)
    requires
        if asc {
            spec_sort_le(spec, a, b) && spec_sort_le(spec, b, c)
        } else {
            spec_sort_le(spec, b, a) && spec_sort_le(spec, c, b)
        },
    ensures
        if asc {
            spec_sort_le(spec, a, c)
        } else {
            spec_sort_le(spec, c, a)
        },
{
    match spec {
        PluginDataSortSpec::Id => {
            if asc {
                lemma_chars_le_trans(a.data.id@, b.data.id@, c.data.id@);
            } else {
                lemma_chars_le_trans(c.data.id@, b.data.id@, a.data.id@);
            }
        },
        PluginDataSortSpec::Name => {
            if asc {
                lemma_chars_le_trans(
                    a.data.current_entry.name@,
                    b.data.current_entry.name@,
                    c.data.current_entry.name@,
                );
            } else {
                lemma_chars_le_trans(
                    c.data.current_entry.name@,
                    b.data.current_entry.name@,
                    a.data.current_entry.name@,
                );
            }
        },
        _ => {},
    }
}

/// Distinct characters have distinct code points.
proof fn lemma_char_neq_code(c1: char, c2: char)
    requires
        c1 != c2,
    ensures
        c1 as u32 != c2 as u32,
{
}

/// The character order is negatively transitive.
proof fn lemma_chars_le_trans(a: Seq<char>, b: Seq<char>, c: Seq<char>)
    requires
        spec_chars_le(a, b),
        spec_chars_le(b, c),
    ensures
        spec_chars_le(a, c),
    decreases a.len() + b.len() + c.len(),
{
    if crate::version::spec_chars_lt(c, a) {
        // walk down the common prefixes
        if a.len() > 0 && c.len() > 0 && a[0] == c[0] {
            if b.len() > 0 {
                if b[0] == a[0] {
                    lemma_chars_le_trans(a.skip(1), b.skip(1), c.skip(1));
                } else if (b[0] as u32) < (a[0] as u32) {
                    assert(crate::version::spec_chars_lt(b, a));
                } else {
                    lemma_char_neq_code(b[0], a[0]);
                    assert(crate::version::spec_chars_lt(c, b));
                }
            } else {
                assert(crate::version::spec_chars_lt(b, a));
            }
        } else if c.len() == 0 {
            assert(crate::version::spec_chars_lt(c, b) || b.len() == 0);
            if b.len() == 0 {
                assert(crate::version::spec_chars_lt(b, a));
            }
        } else if a.len() == 0 {
            assert(false);
        } else {
            // distinct head characters: the strict step must cross b's head
            if b.len() == 0 {
                assert(crate::version::spec_chars_lt(b, a));
            } else {
                if (c[0] as u32) < (a[0] as u32) {
                    if (b[0] as u32) > (c[0] as u32) {
                        lemma_char_neq_code(b[0], c[0]);
                        assert(crate::version::spec_chars_lt(c, b));
                    } else if (b[0] as u32) < (a[0] as u32) {
                        lemma_char_neq_code(b[0], a[0]);
                        assert(crate::version::spec_chars_lt(b, a));
                    } else {
                        assert(false);
                    }
                } else {
                    lemma_char_neq_code(a[0], c[0]);
                }
            }
        }
    }
}

/// Clamped into the reportable range: negatives to zero, overlarge values
/// to the `u32` maximum.
pub open spec fn spec_clamp_u32(v: int) -> u32 {
    if v <= 0 {
        0
    } else if v <= u32::MAX {
        v as u32
    } else {
        u32::MAX
    }
}

/// The monthly running totals stay within `months * entities`.
proof fn lemma_month_totals_bound(
    datas: Seq<FullPluginData>,
    idxs: Seq<usize>,
    start: Date,
    k: nat,
)
    requires
        idxs.len() <= 1_000_000,
    ensures
        -((k + 1) * 1_000_000) <= spec_month_net(datas, idxs, start, k) <= (k + 1) * 1_000_000,
        0 <= spec_month_added(datas, idxs, start, k) <= (k + 1) * 1_000_000,
    decreases k,
{
    lemma_count_bounds(datas, idxs, spec_kth_month(start, k));
    if k > 0 {
        lemma_month_totals_bound(datas, idxs, start, (k - 1) as nat);
        assert((k + 1) * 1_000_000 == k * 1_000_000 + 1_000_000) by (nonlinear_arith);
    } else {
        assert((k + 1) * 1_000_000 == 1_000_000) by (nonlinear_arith)
            requires
                k == 0,
        ;
    }
}

/// Per-month counts never exceed the view's size.
proof fn lemma_count_bounds(datas: Seq<FullPluginData>, idxs: Seq<usize>, date: Date)
    ensures
        0 <= spec_released_count(datas, idxs, date) <= idxs.len(),
        0 <= spec_removed_count(datas, idxs, date) <= idxs.len(),
    decreases idxs.len(),
{
    if idxs.len() > 0 {
        lemma_count_bounds(datas, idxs.drop_last(), date);
    }
}

/// Every record's download series is well formed.
pub open spec fn array_wf(datas: Seq<FullPluginData>) -> bool {
    forall|i: int|
        0 <= i < datas.len() ==> download_history_wf(
            (#[trigger] datas[i]).data.download_history.0@,
        )
}

/// Sum of the view's weekly samples at the window starting at day `lo`; an
/// entity without a sample contributes nothing.
pub open spec fn spec_week_total(datas: Seq<FullPluginData>, idxs: Seq<usize>, lo: int) -> int
    decreases idxs.len(),
{
    if idxs.len() == 0 {
        0
    } else {
        spec_week_total(datas, idxs.drop_last(), lo) + (match spec_first_in_window(
            datas[idxs.last() as int].data.download_history.0@,
            lo,
            lo + 7,
        ) {
            Option::Some(v) => v as int,
            Option::None => 0,
        })
    }
}

/// What the weekly report shows for a given total: nothing for zero, the
/// value clamped into `u32` otherwise.
pub open spec fn spec_total_opt(tot: int) -> Option<u32> {
    if tot > 0 {
        if tot <= u32::MAX {
            Option::Some(tot as u32)
        } else {
            Option::Some(u32::MAX)
        }
    } else {
        Option::None
    }
}

/// What a per-entity weekly point shows: the sample when it is positive.
pub open spec fn spec_sample_opt(sample: Option<u32>) -> Option<u32> {
    match sample {
        Option::Some(d) => if d > 0 {
            Option::Some(d)
        } else {
            Option::None
        },
        Option::None => Option::None,
    }
}

/// The delta between two optional period totals: defined only when both
/// periods have one and the later is no smaller.
pub open spec fn spec_delta(cur: Option<u32>, prev: Option<u32>) -> Option<u32> {
    match (cur, prev) {
        (Option::Some(d), Option::Some(pd)) => if d >= pd {
            Option::Some((d - pd) as u32)
        } else {
            Option::None
        },
        _ => Option::None,
    }
}

/// How many view entities were added in the given month.
pub open spec fn spec_released_count(
    datas: Seq<FullPluginData>,
    idxs: Seq<usize>,
    date: Date,
) -> int
    decreases idxs.len(),
{
    if idxs.len() == 0 {
        0
    } else {
        spec_released_count(datas, idxs.drop_last(), date) + (if (datas[idxs.last() as int]
            .data
            .added_commit
            .date
            .month == date.month && datas[idxs.last() as int].data.added_commit.date.year
            == date.year) {
            1int
        } else {
            0int
        })
    }
}

/// How many view entities were removed in the given month.
pub open spec fn spec_removed_count(
    datas: Seq<FullPluginData>,
    idxs: Seq<usize>,
    date: Date,
) -> int
    decreases idxs.len(),
{
    if idxs.len() == 0 {
        0
    } else {
        spec_removed_count(datas, idxs.drop_last(), date) + (match datas[idxs.last() as int]
            .data
            .removed_commit {
            Option::Some(c) => if c.date.month == date.month && c.date.year == date.year {
                1int
            } else {
                0int
            },
            Option::None => 0int,
        })
    }
}

/// How many entities added in the given month were removed at some point.
pub open spec fn spec_released_removed_count(
    datas: Seq<FullPluginData>,
    idxs: Seq<usize>,
    date: Date,
) -> int
    decreases idxs.len(),
{
    if idxs.len() == 0 {
        0
    } else {
        spec_released_removed_count(datas, idxs.drop_last(), date) + (if (datas[idxs.last() as int]
            .data
            .added_commit
            .date
            .month == date.month && datas[idxs.last() as int].data.added_commit.date.year
            == date.year && datas[idxs.last() as int].data.removed_commit is Some) {
            1int
        } else {
            0int
        })
    }
}

/// The month reached after stepping `k` months from `start`.
pub open spec fn spec_kth_month(start: Date, k: nat) -> Date
    decreases k,
{
    if k == 0 {
        start
    } else {
        crate::date::spec_next_month(spec_kth_month(start, (k - 1) as nat))
    }
}

/// Net entity count after the first `k + 1` months: additions minus
/// removals, accumulated.
pub open spec fn spec_month_net(
    datas: Seq<FullPluginData>,
    idxs: Seq<usize>,
    start: Date,
    k: nat,
) -> int
    decreases k,
{
    let here = spec_released_count(datas, idxs, spec_kth_month(start, k)) - spec_removed_count(
        datas,
        idxs,
        spec_kth_month(start, k),
    );
    if k == 0 {
        here
    } else {
        spec_month_net(datas, idxs, start, (k - 1) as nat) + here
    }
}

/// Total additions over the first `k + 1` months.
pub open spec fn spec_month_added(
    datas: Seq<FullPluginData>,
    idxs: Seq<usize>,
    start: Date,
    k: nat,
) -> int
    decreases k,
{
    let here = spec_released_count(datas, idxs, spec_kth_month(start, k));
    if k == 0 {
        here
    } else {
        spec_month_added(datas, idxs, start, (k - 1) as nat) + here
    }
}

impl PluginDataArrayView {
    /// Sum of the view's samples for the week starting at `date`.
    fn week_total(&self, data: &PluginDataArray, date: &Date) -> (r: u64)
        requires
            view_wf(self.indices@, data.data@),
            array_wf(data.data@),
            valid_date(*date),
            date.year <= 1_000_000,
            self.indices@.len() <= 1_000_000,
        ensures
            r == spec_week_total(data.data@, self.indices@, day_index(*date)),
    {
        let mut acc: u64 = 0;
        let mut i: usize = 0;
        proof {
            assert(self.indices@.subrange(0, 0) =~= Seq::<usize>::empty());
        }
        while i < self.indices.len()
            invariant
                i <= self.indices@.len(),
                view_wf(self.indices@, data.data@),
                array_wf(data.data@),
                valid_date(*date),
                date.year <= 1_000_000,
                self.indices@.len() <= 1_000_000,
                acc == spec_week_total(
                    data.data@,
                    self.indices@.subrange(0, i as int),
                    day_index(*date),
                ),
                acc <= (i as int) * (u32::MAX as int),
            decreases self.indices@.len() - i,
        {
            let ghost pre = self.indices@.subrange(0, i as int);
            let ghost cur = self.indices@.subrange(0, i + 1);
            proof {
                assert(cur.drop_last() =~= pre);
                assert(cur.last() == self.indices@[i as int]);
                vstd::arithmetic::mul::lemma_mul_inequality(
                    i + 1,
                    1_000_000,
                    u32::MAX as int,
                );
            }
            let item = &data.data[self.indices[i]];
            match item.find_downloads_in_week(date) {
                Option::Some(v) => {
                    acc = acc + v as u64;
                },
                Option::None => {},
            }
            i = i + 1;
        }
        proof {
            assert(self.indices@.subrange(0, self.indices@.len() as int) =~= self.indices@);
        }
        acc
    }

    /// The weekly download totals of the whole view from late 2020 through
    /// `end`, with the change from the previous week where both weeks have
    /// observations.
    pub fn total_download_data(&self, data: &PluginDataArray, end: &Date) -> (r: Vec<
        DownloadDataPoint,
    >)
        requires
            view_wf(self.indices@, data.data@),
            array_wf(data.data@),
            valid_date(*end),
            end.year <= 1_000_000,
            self.indices@.len() <= 1_000_000,
        ensures
            forall|k: int|
                0 <= k < r@.len() ==> {
                    let lo = day_index((Date { year: 2020, month: 11, day: 1 })) + 7 * k;
                    let cur = spec_total_opt(spec_week_total(data.data@, self.indices@, lo));
                    let prev = spec_total_opt(spec_week_total(data.data@, self.indices@, lo - 7));
                    &&& (#[trigger] r@[k]).downloads == cur
                    &&& r@[k].delta == spec_delta(cur, prev)
                    &&& exists|d: Date|
                        valid_date(d) && day_index(d) == lo && r@[k].date@
                            == crate::date::spec_date_string(d)
                },
            day_index((Date { year: 2020, month: 11, day: 1 })) <= day_index(*end) ==> 7 * (
            r@.len() - 1) <= day_index(*end) - day_index(
                (Date { year: 2020, month: 11, day: 1 }),
            ) < 7 * r@.len(),
            day_index((Date { year: 2020, month: 11, day: 1 })) > day_index(*end) ==> r@.len()
                == 0,
    {
        let start_date = Date { year: 2020, month: 11, day: 1 };
        let dates = start_date.iterate_weekly_to(end);
        let mut r: Vec<DownloadDataPoint> = Vec::new();
        let mut k: usize = 0;
        while k < dates.len()
            invariant
                k <= dates@.len(),
                view_wf(self.indices@, data.data@),
                array_wf(data.data@),
                self.indices@.len() <= 1_000_000,
                start_date == (Date { year: 2020, month: 11, day: 1 }),
                forall|i: int|
                    0 <= i < dates@.len() ==> valid_date(#[trigger] dates@[i]) && day_index(
                        dates@[i],
                    ) == day_index(start_date) + 7 * i,
                forall|i: int| 0 <= i < dates@.len() ==> (#[trigger] dates@[i]).year <= end.year,
                end.year <= 1_000_000,
                valid_date(*end),
                r@.len() == k as int,
                forall|j: int|
                    0 <= j < k ==> {
                        let lo = day_index(start_date) + 7 * j;
                        let cur = spec_total_opt(spec_week_total(data.data@, self.indices@, lo));
                        let prev = spec_total_opt(
                            spec_week_total(data.data@, self.indices@, lo - 7),
                        );
                        &&& (#[trigger] r@[j]).downloads == cur
                        &&& r@[j].delta == spec_delta(cur, prev)
                        &&& exists|d: Date|
                            valid_date(d) && day_index(d) == lo && r@[j].date@
                                == crate::date::spec_date_string(d)
                    },
            decreases dates@.len() - k,
        {
            let date = dates[k];
            proof {
                // stepping one week back never leaves the representable
                // calendar: the cursor sits at or after late 2020
                crate::date::lemma_year_offset_mono(0, 1970);
                crate::date::lemma_year_offset_mono(1970, 2020);
                crate::date::lemma_days_before_month_mono(2020, 1, 11);
            }
            let mut prev_date = date;
            prev_date.reverse_days(7);
            let cur_total = self.week_total(data, &date);
            let prev_total = self.week_total(data, &prev_date);
            let downloads: Option<u32> = if cur_total > 0 {
                if cur_total <= u32::MAX as u64 {
                    Some(cur_total as u32)
                } else {
                    Some(u32::MAX)
                }
            } else {
                None
            };
            let previous: Option<u32> = if prev_total > 0 {
                if prev_total <= u32::MAX as u64 {
                    Some(prev_total as u32)
                } else {
                    Some(u32::MAX)
                }
            } else {
                None
            };
            let delta = match (downloads, previous) {
                (Option::Some(d), Option::Some(pd)) => if d >= pd {
                    Some(d - pd)
                } else {
                    None
                },
                _ => None,
            };
            r.push(DownloadDataPoint { date: date.to_fancy_string(), downloads, delta });
            k = k + 1;
        }
        r
    }

    /// One report row per entity: its identity, addition date, running
    /// maximum downloads, and release count.
    pub fn individual_download_data(&self, data: &PluginDataArray) -> (r: Vec<
        IndividualDownloadDataPoint,
    >)
        requires
            view_wf(self.indices@, data.data@),
        ensures
            r@.len() == self.indices@.len(),
            forall|i: int|
                0 <= i < r@.len() ==> {
                    let p = data.data@[(#[trigger] self.indices@[i]) as int];
                    &&& r@[i].id@ == p.data.id@
                    &&& r@[i].name@ == p.data.current_entry.name@
                    &&& r@[i].date@ == crate::date::spec_date_string(p.data.added_commit.date)
                    &&& r@[i].downloads == p.data.download_count
                    &&& r@[i].version_count == p.data.version_history@.len() || (r@[i].version_count
                        == u32::MAX && p.data.version_history@.len() > u32::MAX)
                },
    {
        let mut r: Vec<IndividualDownloadDataPoint> = Vec::new();
        let mut i: usize = 0;
        while i < self.indices.len()
            invariant
                i <= self.indices@.len(),
                view_wf(self.indices@, data.data@),
                r@.len() == i as int,
                forall|j: int|
                    0 <= j < i ==> {
                        let p = data.data@[(#[trigger] self.indices@[j]) as int];
                        &&& r@[j].id@ == p.data.id@
                        &&& r@[j].name@ == p.data.current_entry.name@
                        &&& r@[j].date@ == crate::date::spec_date_string(p.data.added_commit.date)
                        &&& r@[j].downloads == p.data.download_count
                        &&& r@[j].version_count == p.data.version_history@.len() || (
                        r@[j].version_count == u32::MAX && p.data.version_history@.len()
                            > u32::MAX)
                    },
            decreases self.indices@.len() - i,
        {
            let item = &data.data[self.indices[i]];
            let vlen = item.data.version_history.len();
            let version_count: u32 = if vlen <= u32::MAX as usize {
                vlen as u32
            } else {
                u32::MAX
            };
            r.push(
                IndividualDownloadDataPoint {
                    id: item.data.id.clone(),
                    name: item.data.current_entry.name.clone(),
                    date: item.data.added_commit.date.to_fancy_string(),
                    downloads: item.data.download_count,
                    version_count,
                },
            );
            i = i + 1;
        }
        r
    }

    /// The identity card of every entity in the view.
    pub fn overview(&self, data: &PluginDataArray) -> (r: Vec<OverviewDataPoint>)
        requires
            view_wf(self.indices@, data.data@),
        ensures
            r@.len() == self.indices@.len(),
            forall|i: int|
                0 <= i < r@.len() ==> {
                    let p = data.data@[(#[trigger] self.indices@[i]) as int];
                    &&& r@[i].id@ == p.data.id@
                    &&& r@[i].name@ == p.data.current_entry.name@
                    &&& r@[i].author@ == p.data.current_entry.author@
                    &&& r@[i].repo@ == p.data.current_entry.repo@
                    &&& r@[i].repo_url@ == "https://github.com/"@ + p.data.current_entry.repo@
                    &&& r@[i].added_commit.date@ == crate::date::spec_date_string(
                        p.data.added_commit.date,
                    )
                    &&& (r@[i].removed_commit is Some <==> p.data.removed_commit is Some)
                },
    {
        let mut r: Vec<OverviewDataPoint> = Vec::new();
        let mut i: usize = 0;
        while i < self.indices.len()
            invariant
                i <= self.indices@.len(),
                view_wf(self.indices@, data.data@),
                r@.len() == i as int,
                forall|j: int|
                    0 <= j < i ==> {
                        let p = data.data@[(#[trigger] self.indices@[j]) as int];
                        &&& r@[j].id@ == p.data.id@
                        &&& r@[j].name@ == p.data.current_entry.name@
                        &&& r@[j].author@ == p.data.current_entry.author@
                        &&& r@[j].repo@ == p.data.current_entry.repo@
                        &&& r@[j].repo_url@ == "https://github.com/"@ + p.data.current_entry.repo@
                        &&& r@[j].added_commit.date@ == crate::date::spec_date_string(
                            p.data.added_commit.date,
                        )
                        &&& (r@[j].removed_commit is Some <==> p.data.removed_commit is Some)
                    },
            decreases self.indices@.len() - i,
        {
            let item = &data.data[self.indices[i]];
            r.push(
                OverviewDataPoint {
                    id: item.id(),
                    name: item.name(),
                    author: item.author(),
                    repo: item.repo(),
                    repo_url: item.repo_url(),
                    added_commit: item.added_commit(),
                    removed_commit: item.removed_commit(),
                },
            );
            i = i + 1;
        }
        r
    }

    /// Additions and removals per month from late 2020 through `end`, with
    /// running totals clamped at zero for display.
    #[verifier::rlimit(100)]
    #[verifier::spinoff_prover]
    #[verifier::loop_isolation(true)]
    pub fn monthly_count(&self, data: &PluginDataArray, end: &Date) -> (r: Vec<
        CountMonthlyDataPoint,
    >)
        requires
            view_wf(self.indices@, data.data@),
            valid_date(*end),
            end.year <= 1_000_000,
            self.indices@.len() <= 1_000_000,
        ensures
            ({
                let start = (Date { year: 2020, month: 11, day: 1 });
                let datas = data.data@;
                let idxs = self.indices@;
                &&& r@.len() == 0 <==> spec_date_lt(*end, start)
                &&& forall|k: int|
                    0 <= k < r@.len() ==> {
                        let m = spec_kth_month(start, k as nat);
                        &&& (#[trigger] r@[k]).date@ == crate::date::spec_date_string(m)
                        &&& r@[k].new == spec_released_count(datas, idxs, m)
                        &&& r@[k].new_removed == spec_removed_count(datas, idxs, m)
                        &&& r@[k].total == spec_clamp_u32(
                            spec_month_net(datas, idxs, start, k as nat),
                        )
                        &&& r@[k].total_with_removed == spec_clamp_u32(
                            spec_month_added(datas, idxs, start, k as nat),
                        )
                    }
            }),
    {
        let start_date = Date { year: 2020, month: 11, day: 1 };
        let dates = start_date.iterate_monthly_to(end);
        let mut r: Vec<CountMonthlyDataPoint> = Vec::new();
        let mut plugin_count: i64 = 0;
        let mut plugin_count_with_removed: i64 = 0;
        let mut k: usize = 0;
        while k < dates.len()
            invariant
                k <= dates@.len(),
                view_wf(self.indices@, data.data@),
                self.indices@.len() <= 1_000_000,
                start_date == (Date { year: 2020, month: 11, day: 1 }),
                dates@.len() > 0 ==> dates@[0] == start_date,
                forall|i: int|
                    1 <= i < dates@.len() ==> #[trigger] dates@[i] == crate::date::spec_next_month(
                        dates@[i - 1],
                    ),
                forall|i: int| 0 <= i < k ==> #[trigger] dates@[i] == spec_kth_month(
                    start_date,
                    i as nat,
                ),
                r@.len() == k as int,
                k > 0 ==> plugin_count == spec_month_net(
                    data.data@,
                    self.indices@,
                    start_date,
                    (k - 1) as nat,
                ),
                k == 0 ==> plugin_count == 0,
                k > 0 ==> plugin_count_with_removed == spec_month_added(
                    data.data@,
                    self.indices@,
                    start_date,
                    (k - 1) as nat,
                ),
                k == 0 ==> plugin_count_with_removed == 0,
                -100_000_000_000_000 <= plugin_count <= 100_000_000_000_000,
                0 <= plugin_count_with_removed <= 100_000_000_000_000,
                dates@.len() <= 13_000_000,
                forall|j: int|
                    0 <= j < k ==> {
                        let m = spec_kth_month(start_date, j as nat);
                        &&& (#[trigger] r@[j]).date@ == crate::date::spec_date_string(m)
                        &&& r@[j].new == spec_released_count(data.data@, self.indices@, m)
                        &&& r@[j].new_removed == spec_removed_count(data.data@, self.indices@, m)
                        &&& r@[j].total == spec_clamp_u32(
                            spec_month_net(data.data@, self.indices@, start_date, j as nat),
                        )
                        &&& r@[j].total_with_removed == spec_clamp_u32(
                            spec_month_added(data.data@, self.indices@, start_date, j as nat),
                        )
                    },
            decreases dates@.len() - k,
        {
            proof {
                if k > 0 {
                    assert(dates@[k as int] == crate::date::spec_next_month(dates@[k - 1]));
                    assert(dates@[k - 1] == spec_kth_month(start_date, (k - 1) as nat));
                }
                assert(dates@[k as int] == spec_kth_month(start_date, k as nat));
            }
            let date = dates[k];
            let new_plugins = self.released_count(data, &date);
            let removed_plugins = self.removed_count(data, &date);
            proof {
                lemma_month_totals_bound(data.data@, self.indices@, start_date, k as nat);
                vstd::arithmetic::mul::lemma_mul_inequality(k + 1, 13_000_001, 1_000_000);
            }
            plugin_count = plugin_count + new_plugins as i64 - removed_plugins as i64;
            plugin_count_with_removed = plugin_count_with_removed + new_plugins as i64;
            let total: u32 = if plugin_count > 0 {
                if plugin_count <= u32::MAX as i64 {
                    plugin_count as u32
                } else {
                    u32::MAX
                }
            } else {
                0
            };
            let total_with_removed: u32 = if plugin_count_with_removed <= u32::MAX as i64 {
                plugin_count_with_removed as u32
            } else {
                u32::MAX
            };
            r.push(
                CountMonthlyDataPoint {
                    date: date.to_fancy_string(),
                    total,
                    total_with_removed,
                    new: new_plugins,
                    new_removed: removed_plugins,
                },
            );
            k = k + 1;
        }
        proof {
            if r@.len() == 0 {
                assert(spec_date_lt(*end, start_date));
            }
        }
        r
    }

    /// How many view entities were added in the given month.
    fn released_count(&self, data: &PluginDataArray, date: &Date) -> (r: u32)
        requires
            view_wf(self.indices@, data.data@),
            self.indices@.len() <= 1_000_000,
        ensures
            r == spec_released_count(data.data@, self.indices@, *date),
            r <= self.indices@.len(),
    {
        let mut count: u32 = 0;
        let mut i: usize = 0;
        proof {
            assert(self.indices@.subrange(0, 0) =~= Seq::<usize>::empty());
        }
        while i < self.indices.len()
            invariant
                i <= self.indices@.len(),
                view_wf(self.indices@, data.data@),
                self.indices@.len() <= 1_000_000,
                count == spec_released_count(
                    data.data@,
                    self.indices@.subrange(0, i as int),
                    *date,
                ),
                count <= i,
            decreases self.indices@.len() - i,
        {
            let ghost pre = self.indices@.subrange(0, i as int);
            let ghost cur = self.indices@.subrange(0, i + 1);
            proof {
                assert(cur.drop_last() =~= pre);
                assert(cur.last() == self.indices@[i as int]);
            }
            let item = &data.data[self.indices[i]];
            if item.released_in_month(date) {
                count = count + 1;
            }
            i = i + 1;
        }
        proof {
            assert(self.indices@.subrange(0, self.indices@.len() as int) =~= self.indices@);
        }
        count
    }

    /// How many view entities were removed in the given month.
    fn removed_count(&self, data: &PluginDataArray, date: &Date) -> (r: u32)
        requires
            view_wf(self.indices@, data.data@),
            self.indices@.len() <= 1_000_000,
        ensures
            r == spec_removed_count(data.data@, self.indices@, *date),
            r <= self.indices@.len(),
    {
        let mut count: u32 = 0;
        let mut i: usize = 0;
        proof {
            assert(self.indices@.subrange(0, 0) =~= Seq::<usize>::empty());
        }
        while i < self.indices.len()
            invariant
                i <= self.indices@.len(),
                view_wf(self.indices@, data.data@),
                self.indices@.len() <= 1_000_000,
                count == spec_removed_count(data.data@, self.indices@.subrange(0, i as int), *date),
                count <= i,
            decreases self.indices@.len() - i,
        {
            let ghost pre = self.indices@.subrange(0, i as int);
            let ghost cur = self.indices@.subrange(0, i + 1);
            proof {
                assert(cur.drop_last() =~= pre);
                assert(cur.last() == self.indices@[i as int]);
            }
            let item = &data.data[self.indices[i]];
            if item.removed_in_month(date) {
                count = count + 1;
            }
            i = i + 1;
        }
        proof {
            assert(self.indices@.subrange(0, self.indices@.len() as int) =~= self.indices@);
        }
        count
    }

    /// Per month from late 2020 through `end`: how many view entities were
    /// added that month, and how many of those were later removed. The
    /// report front end turns the pair into a percentage.
    pub fn removed_by_release_month(&self, data: &PluginDataArray, end: &Date) -> (r: Vec<
        RemovedByReleaseCount,
    >)
        requires
            view_wf(self.indices@, data.data@),
            valid_date(*end),
            end.year <= 1_000_000,
            self.indices@.len() <= 1_000_000,
        ensures
            ({
                let start = (Date { year: 2020, month: 11, day: 1 });
                &&& r@.len() == 0 <==> spec_date_lt(*end, start)
                &&& forall|k: int|
                    0 <= k < r@.len() ==> {
                        let m = spec_kth_month(start, k as nat);
                        &&& (#[trigger] r@[k]).date@ == crate::date::spec_date_string(m)
                        &&& r@[k].released == spec_released_count(data.data@, self.indices@, m)
                        &&& r@[k].removed == spec_released_removed_count(
                            data.data@,
                            self.indices@,
                            m,
                        )
                    }
            }),
    {
        let start_date = Date { year: 2020, month: 11, day: 1 };
        let dates = start_date.iterate_monthly_to(end);
        let mut r: Vec<RemovedByReleaseCount> = Vec::new();
        let mut k: usize = 0;
        while k < dates.len()
            invariant
                k <= dates@.len(),
                view_wf(self.indices@, data.data@),
                self.indices@.len() <= 1_000_000,
                start_date == (Date { year: 2020, month: 11, day: 1 }),
                dates@.len() > 0 ==> dates@[0] == start_date,
                forall|i: int|
                    1 <= i < dates@.len() ==> #[trigger] dates@[i] == crate::date::spec_next_month(
                        dates@[i - 1],
                    ),
                forall|i: int| 0 <= i < k ==> #[trigger] dates@[i] == spec_kth_month(
                    start_date,
                    i as nat,
                ),
                r@.len() == k as int,
                forall|j: int|
                    0 <= j < k ==> {
                        let m = spec_kth_month(start_date, j as nat);
                        &&& (#[trigger] r@[j]).date@ == crate::date::spec_date_string(m)
                        &&& r@[j].released == spec_released_count(data.data@, self.indices@, m)
                        &&& r@[j].removed == spec_released_removed_count(
                            data.data@,
                            self.indices@,
                            m,
                        )
                    },
            decreases dates@.len() - k,
        {
            proof {
                if k > 0 {
                    assert(dates@[k as int] == crate::date::spec_next_month(dates@[k - 1]));
                    assert(dates@[k - 1] == spec_kth_month(start_date, (k - 1) as nat));
                }
                assert(dates@[k as int] == spec_kth_month(start_date, k as nat));
            }
            let date = dates[k];
            let released = self.released_count(data, &date);
            let removed = self.released_removed_count(data, &date);
            r.push(
                RemovedByReleaseCount { date: date.to_fancy_string(), removed, released },
            );
            k = k + 1;
        }
        proof {
            if r@.len() == 0 {
                assert(spec_date_lt(*end, start_date));
            }
        }
        r
    }

    /// How many entities added in the given month were removed at any point.
    fn released_removed_count(&self, data: &PluginDataArray, date: &Date) -> (r: u32)
        requires
            view_wf(self.indices@, data.data@),
            self.indices@.len() <= 1_000_000,
        ensures
            r == spec_released_removed_count(data.data@, self.indices@, *date),
            r <= self.indices@.len(),
    {
        let mut count: u32 = 0;
        let mut i: usize = 0;
        proof {
            assert(self.indices@.subrange(0, 0) =~= Seq::<usize>::empty());
        }
        while i < self.indices.len()
            invariant
                i <= self.indices@.len(),
                view_wf(self.indices@, data.data@),
                self.indices@.len() <= 1_000_000,
                count == spec_released_removed_count(
                    data.data@,
                    self.indices@.subrange(0, i as int),
                    *date,
                ),
                count <= i,
            decreases self.indices@.len() - i,
        {
            let ghost pre = self.indices@.subrange(0, i as int);
            let ghost cur = self.indices@.subrange(0, i + 1);
            proof {
                assert(cur.drop_last() =~= pre);
                assert(cur.last() == self.indices@[i as int]);
            }
            let item = &data.data[self.indices[i]];
            if item.released_in_month(date) && item.data.removed_commit.is_some() {
                count = count + 1;
            }
            i = i + 1;
        }
        proof {
            assert(self.indices@.subrange(0, self.indices@.len() as int) =~= self.indices@);
        }
        count
    }
}

/// Every record's addition date is a real calendar day within the bound the
/// calendar arithmetic needs.
pub open spec fn array_dates_wf(datas: Seq<FullPluginData>) -> bool {
    forall|i: int|
        0 <= i < datas.len() ==> valid_date((#[trigger] datas[i]).data.added_commit.date) && (
        #[trigger] datas[i]).data.added_commit.date.year <= 1_000_000
}

/// The window end used for one entity's ranking samples: its removal date
/// when it has a usable one, the report cutoff otherwise.
pub open spec fn spec_rank_end(p: FullPluginData, fallback_end: Date) -> Date {
    match p.data.removed_commit {
        Option::Some(c) => if valid_date(c.date) && c.date.year <= 1_000_000 {
            c.date
        } else {
            fallback_end
        },
        Option::None => fallback_end,
    }
}

/// Whether an entity enters the most-downloaded ranking: when restricted,
/// it must have been added within the range; it must have a sample at the
/// range start and one at the range end; and the end sample may not fall
/// below the start sample — a data regression excludes the entity rather
/// than reporting a negative figure.
pub open spec fn spec_rank_qualifies(
    p: FullPluginData,
    start: Date,
    end: Date,
    restrict: bool,
    fallback_end: Date,
) -> bool {
    let h = p.data.download_history.0@;
    let ds = spec_first_in_window(
        h,
        day_index(start),
        day_index(spec_rank_end(p, fallback_end)) + 1,
    );
    let de = spec_last_in_window(h, day_index(p.data.added_commit.date), day_index(end));
    &&& (!restrict || (spec_date_le(start, p.data.added_commit.date) && spec_date_le(
        p.data.added_commit.date,
        end,
    )))
    &&& ds is Some
    &&& de is Some
    &&& ds->0 <= de->0
}

/// How many view entities qualify for the ranking.
pub open spec fn spec_rank_count(
    datas: Seq<FullPluginData>,
    idxs: Seq<usize>,
    start: Date,
    end: Date,
    restrict: bool,
    fallback_end: Date,
) -> int
    decreases idxs.len(),
{
    if idxs.len() == 0 {
        0
    } else {
        spec_rank_count(datas, idxs.drop_last(), start, end, restrict, fallback_end) + (
        if spec_rank_qualifies(datas[idxs.last() as int], start, end, restrict, fallback_end) {
            1int
        } else {
            0int
        })
    }
}

/// The gain a qualifying entity shows over the range.
pub open spec fn spec_rank_delta(p: FullPluginData, start: Date, end: Date, fallback_end: Date)
    -> int {
    let h = p.data.download_history.0@;
    let ds = spec_first_in_window(
        h,
        day_index(start),
        day_index(spec_rank_end(p, fallback_end)) + 1,
    );
    let de = spec_last_in_window(h, day_index(p.data.added_commit.date), day_index(end));
    de->0 - ds->0
}

/// One ranked element corresponds to a qualifying view entity with exactly
/// its measured figures, and its weekly series shows only real samples of
/// that entity, shifted down by the range-start figure.
pub open spec fn spec_rank_entry_ok(
    datas: Seq<FullPluginData>,
    idxs: Seq<usize>,
    start: Date,
    end: Date,
    restrict: bool,
    fallback_end: Date,
    id: Seq<char>,
    name: Seq<char>,
    downloads_new: u32,
    downloads_start: u32,
    series: Seq<DownloadDataPoint>,
) -> bool {
    exists|i: int|
        {
            &&& 0 <= i < idxs.len()
            &&& {
                let p = datas[(#[trigger] idxs[i]) as int];
                let h = p.data.download_history.0@;
                let ds = spec_first_in_window(
                    h,
                    day_index(start),
                    day_index(spec_rank_end(p, fallback_end)) + 1,
                );
                let de = spec_last_in_window(
                    h,
                    day_index(p.data.added_commit.date),
                    day_index(end),
                );
                &&& spec_rank_qualifies(p, start, end, restrict, fallback_end)
                &&& id == p.data.id@
                &&& name == p.data.current_entry.name@
                &&& downloads_start == ds->0
                &&& downloads_new == de->0 - ds->0
                &&& forall|n: int|
                    0 <= n < series.len() ==> ((#[trigger] series[n]).delta is None
                        && exists|lo: int|
                        spec_hall_point_ok(h, lo, downloads_start, series[n].downloads))
            }
        }
}

/// With the ranking a permutation of the gathered pool, sorted
/// non-increasingly and reported up to the cap, every pool gain is either
/// reported exactly or no larger than the last reported one.
proof fn lemma_rank_maximality(
    pool: Seq<(usize, u32, u32)>,
    ranked: Seq<(usize, u32, u32)>,
    values: Seq<u32>,
    d: u32,
)
    requires
        ranked.to_multiset() == pool.to_multiset(),
        forall|a: int, b: int| 0 <= a < b < ranked.len() ==> (#[trigger] ranked[a]).1 >= (
        #[trigger] ranked[b]).1,
        values.len() <= ranked.len(),
        forall|j: int| 0 <= j < values.len() ==> #[trigger] values[j] == ranked[j].1,
        exists|kk: int| 0 <= kk < pool.len() && (#[trigger] pool[kk]).1 == d,
        values.len() > 0,
    ensures
        d <= values[values.len() - 1] || exists|k: int|
            0 <= k < values.len() && #[trigger] values[k] == d,
{
    broadcast use vstd::seq_lib::group_to_multiset_ensures;

    let kk = choose|kk: int| 0 <= kk < pool.len() && (#[trigger] pool[kk]).1 == d;
    let tup = pool[kk];
    assert(pool.contains(tup));
    assert(pool.to_multiset().count(tup) > 0);
    assert(ranked.to_multiset().count(tup) > 0);
    assert(ranked.contains(tup));
    let w = choose|w: int| 0 <= w < ranked.len() && #[trigger] ranked[w] == tup;
    if w < values.len() {
        assert(values[w] == d);
    } else {
        assert(ranked[values.len() - 1].1 >= ranked[w].1);
        assert(values[values.len() - 1] == ranked[values.len() - 1].1);
    }
}


impl PluginDataArrayView {
    /// The ranking of the view's entities by downloads gained over the
    /// range: the given year, or late 2020 through the cutoff. At most
    /// `count` entities are reported, in non-increasing order of gain, and
    /// exactly the qualifying entities compete.
    /// Gathers the qualifying entities with their measured figures, in view
    /// order: one tuple (collection index, gain, start figure) per
    /// qualifying position, covering them all.
    #[verifier::rlimit(100)]
    #[verifier::spinoff_prover]
    fn gather_rank_pool(
        &self,
        data: &PluginDataArray,
        start_date: &Date,
        end_date: &Date,
        restrict_release_date: bool,
        fallback_end: &Date,
    ) -> (tmp: Vec<(usize, u32, u32)>)
        requires
            view_wf(self.indices@, data.data@),
            array_wf(data.data@),
            array_dates_wf(data.data@),
            valid_date(*start_date),
            start_date.year <= 1_000_001,
            valid_date(*end_date),
            end_date.year <= 1_000_001,
            valid_date(*fallback_end),
            fallback_end.year <= 1_000_000,
        ensures
            tmp@.len() == spec_rank_count(
                data.data@,
                self.indices@,
                *start_date,
                *end_date,
                restrict_release_date,
                *fallback_end,
            ),
            forall|k: int|
                0 <= k < tmp@.len() ==> rank_item_ok(
                    data.data@,
                    self.indices@,
                    *start_date,
                    *end_date,
                    restrict_release_date,
                    *fallback_end,
                    #[trigger] tmp@[k],
                ),
            forall|j: int|
                0 <= j < self.indices@.len() && spec_rank_qualifies(
                    data.data@[(#[trigger] self.indices@[j]) as int],
                    *start_date,
                    *end_date,
                    restrict_release_date,
                    *fallback_end,
                ) ==> exists|k: int|
                    0 <= k < tmp@.len() && (#[trigger] tmp@[k]).1 == spec_rank_delta(
                        data.data@[self.indices@[j] as int],
                        *start_date,
                        *end_date,
                        *fallback_end,
                    ),
    {
        let ghost datas = data.data@;
        let ghost idxs = self.indices@;
        let start_date = *start_date;
        let end_date = *end_date;
        let fallback_end = *fallback_end;
        let fallback_end = &fallback_end;
        // gather the qualifying entities with their figures
        let mut tmp: Vec<(usize, u32, u32)> = Vec::new();
        let mut i: usize = 0;
        proof {
            assert(idxs.subrange(0, 0) =~= Seq::<usize>::empty());
        }
        while i < self.indices.len()
            invariant
                i <= idxs.len(),
                idxs == self.indices@,
                datas == data.data@,
                view_wf(idxs, datas),
                array_wf(datas),
                array_dates_wf(datas),
                valid_date(start_date),
                start_date.year <= 1_000_001,
                valid_date(end_date),
                end_date.year <= 1_000_001,
                tmp@.len() == spec_rank_count(
                    datas,
                    idxs.subrange(0, i as int),
                    start_date,
                    end_date,
                    restrict_release_date,
                    *fallback_end,
                ),
                valid_date(*fallback_end),
                fallback_end.year <= 1_000_000,
                forall|k: int|
                    0 <= k < tmp@.len() ==> rank_item_ok(
                        datas,
                        idxs,
                        start_date,
                        end_date,
                        restrict_release_date,
                        *fallback_end,
                        #[trigger] tmp@[k],
                    ),
                forall|j: int|
                    0 <= j < i && spec_rank_qualifies(
                        datas[(#[trigger] idxs[j]) as int],
                        start_date,
                        end_date,
                        restrict_release_date,
                        *fallback_end,
                    ) ==> exists|k: int|
                        0 <= k < tmp@.len() && (#[trigger] tmp@[k]).1 == spec_rank_delta(
                            datas[idxs[j] as int],
                            start_date,
                            end_date,
                            *fallback_end,
                        ),
            decreases idxs.len() - i,
        {
            let ghost pre = idxs.subrange(0, i as int);
            let ghost cur = idxs.subrange(0, i + 1);
            proof {
                assert(cur.drop_last() =~= pre);
                assert(cur.last() == idxs[i as int]);
            }
            let idx = self.indices[i];
            let item = &data.data[idx];
            let in_range = if restrict_release_date {
                date_le(&start_date, &item.data.added_commit.date) && date_le(
                    &item.data.added_commit.date,
                    &end_date,
                )
            } else {
                true
            };
            if in_range {
                let endd = match &item.data.removed_commit {
                    Option::Some(c) => if c.date.is_valid() && c.date.year <= 1_000_000 {
                        c.date
                    } else {
                        *fallback_end
                    },
                    Option::None => *fallback_end,
                };
                let ds = item.find_downloads_after_date(&start_date, &endd);
                let de = item.find_downloads_before_date(&end_date);
                match (ds, de) {
                    (Option::Some(s), Option::Some(e)) => {
                        if s <= e {
                            let ghost pre_tmp = tmp@;
                            tmp.push((idx, e - s, s));
                            proof {
                                assert(spec_rank_qualifies(
                                    datas[idxs[i as int] as int],
                                    start_date,
                                    end_date,
                                    restrict_release_date,
                                    *fallback_end,
                                ));
                                assert(tmp@[pre_tmp.len() as int].1 == spec_rank_delta(
                                    datas[idxs[i as int] as int],
                                    start_date,
                                    end_date,
                                    *fallback_end,
                                ));
                                assert(forall|k: int|
                                    0 <= k < pre_tmp.len() ==> tmp@[k] == pre_tmp[k]);
                            }
                        }
                    },
                    _ => {},
                }
            }
            i = i + 1;
        }
        proof {
            assert(idxs.subrange(0, idxs.len() as int) =~= idxs);
        }
        tmp
    }

    /// Ranks the gathered tuples by gain, largest first: a permutation of
    /// the pool, each element still a qualifying entity's figures.
    #[verifier::rlimit(100)]
    #[verifier::spinoff_prover]
    fn rank_pool(
        &self,
        tmp: Vec<(usize, u32, u32)>,
        Ghost(datas): Ghost<Seq<FullPluginData>>,
        Ghost(idxs): Ghost<Seq<usize>>,
        Ghost(start_date): Ghost<Date>,
        Ghost(end_date): Ghost<Date>,
        Ghost(restrict): Ghost<bool>,
        Ghost(fallback): Ghost<Date>,
    ) -> (ranked: Vec<(usize, u32, u32)>)
        requires
            forall|k: int|
                0 <= k < tmp@.len() ==> rank_item_ok(
                    datas,
                    idxs,
                    start_date,
                    end_date,
                    restrict,
                    fallback,
                    #[trigger] tmp@[k],
                ),
        ensures
            ranked@.to_multiset() == tmp@.to_multiset(),
            ranked@.len() == tmp@.len(),
            forall|k: int|
                0 <= k < ranked@.len() ==> rank_item_ok(
                    datas,
                    idxs,
                    start_date,
                    end_date,
                    restrict,
                    fallback,
                    #[trigger] ranked@[k],
                ),
            forall|a: int, b: int|
                0 <= a < b < ranked@.len() ==> (#[trigger] ranked@[a]).1 >= (
                #[trigger] ranked@[b]).1,
    {
        let ghost start_date_g = start_date;
        let ghost restrict_release_date = restrict;
        let ghost fallback_end_v = fallback;
        // selection by the largest remaining gain
        let mut src = tmp;
        let mut ranked: Vec<(usize, u32, u32)> = Vec::new();
        let ghost pool = src@;
        proof {
            broadcast use vstd::seq_lib::group_to_multiset_ensures;
        }
        while src.len() > 0
            invariant
                ranked@.len() + src@.len() == pool.len(),
                ranked@.to_multiset().add(src@.to_multiset()) == pool.to_multiset(),
                forall|k: int|
                    0 <= k < src@.len() ==> rank_item_ok(
                        datas,
                        idxs,
                        start_date,
                        end_date,
                        restrict,
                        fallback,
                        #[trigger] src@[k],
                    ),
                forall|k: int|
                    0 <= k < ranked@.len() ==> rank_item_ok(
                        datas,
                        idxs,
                        start_date,
                        end_date,
                        restrict,
                        fallback,
                        #[trigger] ranked@[k],
                    ),
                forall|a: int, b: int|
                    0 <= a < b < ranked@.len() ==> (#[trigger] ranked@[a]).1 >= (
                    #[trigger] ranked@[b]).1,
                forall|a: int, b: int|
                    0 <= a < ranked@.len() && 0 <= b < src@.len() ==> (#[trigger] ranked@[a]).1
                        >= (#[trigger] src@[b]).1,
            decreases src@.len(),
        {
            let mut best: usize = 0;
            let mut k: usize = 1;
            while k < src.len()
                invariant
                    best < k <= src@.len(),
                    src@.len() > 0,
                    forall|j: int| 0 <= j < k ==> (#[trigger] src@[j]).1 <= src@[best as int].1,
                decreases src@.len() - k,
            {
                if src[k].1 > src[best].1 {
                    best = k;
                }
                k = k + 1;
            }
            let ghost pre_src = src@;
            let ghost pre_ranked = ranked@;
            let picked = src.remove(best);
            ranked.push(picked);
            proof {
                broadcast use vstd::seq_lib::group_to_multiset_ensures;

                assert(ranked@.to_multiset().add(src@.to_multiset())
                    =~= pre_ranked.to_multiset().add(pre_src.to_multiset()));
                assert forall|a: int, b: int|
                    0 <= a < ranked@.len() && 0 <= b < src@.len() implies (
                #[trigger] ranked@[a]).1 >= (#[trigger] src@[b]).1 by {
                    if b < best {
                        assert(src@[b] == pre_src[b]);
                    } else {
                        assert(src@[b] == pre_src[b + 1]);
                    }
                    if a < pre_ranked.len() {
                        assert(ranked@[a] == pre_ranked[a]);
                    } else {
                        assert(ranked@[a] == picked);
                    }
                }
            }
        }
        proof {
            broadcast use vstd::seq_lib::group_to_multiset_ensures;

            assert(src@.to_multiset() =~= vstd::multiset::Multiset::<(usize, u32, u32)>::empty());
            assert(ranked@.to_multiset() =~= pool.to_multiset());
        }
        ranked
    }

    /// Renders the top entries of the ranking, capped at `count`, into the
    /// report rows with their weekly series.
    #[verifier::rlimit(100)]
    #[verifier::spinoff_prover]
    fn render_rank(
        &self,
        data: &PluginDataArray,
        ranked: &Vec<(usize, u32, u32)>,
        count: usize,
        start_date: &Date,
        end_date: &Date,
        restrict_release_date: bool,
        fallback_end: &Date,
    ) -> (r: Vec<crate::common::HallOfFameDataPoint>)
        requires
            view_wf(self.indices@, data.data@),
            array_wf(data.data@),
            array_dates_wf(data.data@),
            valid_date(*start_date),
            start_date.year <= 1_000_001,
            valid_date(*end_date),
            end_date.year <= 1_000_001,
            valid_date(*fallback_end),
            fallback_end.year <= 1_000_000,
            forall|j: int|
                0 <= j < ranked@.len() ==> rank_item_ok(
                    data.data@,
                    self.indices@,
                    *start_date,
                    *end_date,
                    restrict_release_date,
                    *fallback_end,
                    #[trigger] ranked@[j],
                ),
        ensures
            r@.len() == if ranked@.len() < count {
                ranked@.len() as int
            } else {
                count as int
            },
            forall|j: int|
                0 <= j < r@.len() ==> spec_rank_entry_ok(
                    data.data@,
                    self.indices@,
                    *start_date,
                    *end_date,
                    restrict_release_date,
                    *fallback_end,
                    (#[trigger] r@[j]).id@,
                    r@[j].name@,
                    r@[j].downloads_new,
                    r@[j].downloads_start,
                    r@[j].data@,
                ),
            forall|j: int| 0 <= j < r@.len() ==> (#[trigger] r@[j]).downloads_new == ranked@[j].1,
    {
        let ghost datas = data.data@;
        let ghost idxs = self.indices@;
        let start_date = *start_date;
        let end_date = *end_date;
        let fallback_end = *fallback_end;
        let fallback_end = &fallback_end;
        let mut r: Vec<crate::common::HallOfFameDataPoint> = Vec::new();
        let mut k: usize = 0;
        let limit = if count < ranked.len() {
            count
        } else {
            ranked.len()
        };
        while k < limit
            invariant
                k <= limit,
                limit == if count < ranked@.len() {
                    count as int
                } else {
                    ranked@.len() as int
                },
                idxs == self.indices@,
                datas == data.data@,
                view_wf(idxs, datas),
                array_wf(datas),
                array_dates_wf(datas),
                valid_date(start_date),
                start_date.year <= 1_000_001,
                valid_date(end_date),
                end_date.year <= 1_000_001,
                valid_date(*fallback_end),
                fallback_end.year <= 1_000_000,
                forall|j: int|
                    0 <= j < ranked@.len() ==> rank_item_ok(
                        datas,
                        idxs,
                        start_date,
                        end_date,
                        restrict_release_date,
                        *fallback_end,
                        #[trigger] ranked@[j],
                    ),
                r@.len() == k as int,
                forall|j: int|
                    0 <= j < k ==> spec_rank_entry_ok(
                        datas,
                        idxs,
                        start_date,
                        end_date,
                        restrict_release_date,
                        *fallback_end,
                        (#[trigger] r@[j]).id@,
                        r@[j].name@,
                        r@[j].downloads_new,
                        r@[j].downloads_start,
                        r@[j].data@,
                    ),
                forall|j: int| 0 <= j < k ==> (#[trigger] r@[j]).downloads_new == ranked@[j].1,
            decreases limit - k,
        {
            let (idx, downloads_new, downloads_start) = ranked[k];
            proof {
                assert(rank_item_ok(
                    datas,
                    idxs,
                    start_date,
                    end_date,
                    restrict_release_date,
                    *fallback_end,
                    ranked@[k as int],
                ));
            }
            let item = &data.data[idx];
            let series = hall_series(item, &start_date, &end_date, downloads_start);
            let ghost series_view = series@;
            r.push(
                crate::common::HallOfFameDataPoint {
                    id: item.data.id.clone(),
                    name: item.data.current_entry.name.clone(),
                    downloads_new,
                    downloads_start,
                    data: series,
                },
            );
            proof {
                // the witness position in the view carries every clause of
                // the entry, the fresh series included
                let wi = choose|wi: int|
                    {
                        &&& 0 <= wi < idxs.len()
                        &&& (#[trigger] idxs[wi]) == ranked@[k as int].0
                        &&& {
                            let p = datas[ranked@[k as int].0 as int];
                            let h = p.data.download_history.0@;
                            let ds = spec_first_in_window(
                                h,
                                day_index(start_date),
                                day_index(spec_rank_end(p, *fallback_end)) + 1,
                            );
                            let de = spec_last_in_window(
                                h,
                                day_index(p.data.added_commit.date),
                                day_index(end_date),
                            );
                            &&& spec_rank_qualifies(
                                p,
                                start_date,
                                end_date,
                                restrict_release_date,
                                *fallback_end,
                            )
                            &&& ranked@[k as int].2 == ds->0
                            &&& ranked@[k as int].1 == de->0 - ds->0
                        }
                    };
                assert(0 <= wi < idxs.len() && idxs[wi] == ranked@[k as int].0);
                assert(spec_rank_entry_ok(
                    datas,
                    idxs,
                    start_date,
                    end_date,
                    restrict_release_date,
                    *fallback_end,
                    r@[k as int].id@,
                    r@[k as int].name@,
                    r@[k as int].downloads_new,
                    r@[k as int].downloads_start,
                    r@[k as int].data@,
                ));
            }
            k = k + 1;
        }
        r
    }

    #[verifier::rlimit(100)]
    #[verifier::spinoff_prover]
    pub fn most_downloaded(
        &self,
        data: &PluginDataArray,
        count: usize,
        year: Option<u32>,
        restrict_release_date: bool,
        fallback_end: &Date,
    ) -> (r: Vec<crate::common::HallOfFameDataPoint>)
        requires
            view_wf(self.indices@, data.data@),
            array_wf(data.data@),
            array_dates_wf(data.data@),
            valid_date(*fallback_end),
            fallback_end.year <= 1_000_000,
            match year {
                Option::Some(y) => y <= 1_000_000,
                Option::None => true,
            },
        ensures
            ({
                let start = match year {
                    Option::Some(y) => Date { year: y, month: 1, day: 1 },
                    Option::None => Date { year: 2020, month: 11, day: 1 },
                };
                let end = match year {
                    Option::Some(y) => Date { year: (y + 1) as u32, month: 1, day: 1 },
                    Option::None => *fallback_end,
                };
                let qualifying = spec_rank_count(
                    data.data@,
                    self.indices@,
                    start,
                    end,
                    restrict_release_date,
                    *fallback_end,
                );
                &&& r@.len() == if qualifying < count {
                    qualifying
                } else {
                    count as int
                }
                &&& forall|k: int|
                    0 <= k < r@.len() ==> spec_rank_entry_ok(
                        data.data@,
                        self.indices@,
                        start,
                        end,
                        restrict_release_date,
                        *fallback_end,
                        (#[trigger] r@[k]).id@,
                        r@[k].name@,
                        r@[k].downloads_new,
                        r@[k].downloads_start,
                        r@[k].data@,
                    )
                &&& forall|a: int, b: int|
                    0 <= a < b < r@.len() ==> (#[trigger] r@[a]).downloads_new >= (
                    #[trigger] r@[b]).downloads_new
                &&& forall|i: int|
                    0 <= i < self.indices@.len() && spec_rank_qualifies(
                        data.data@[(#[trigger] self.indices@[i]) as int],
                        start,
                        end,
                        restrict_release_date,
                        *fallback_end,
                    ) ==> (r@.len() == 0 || spec_rank_delta(
                        data.data@[self.indices@[i] as int],
                        start,
                        end,
                        *fallback_end,
                    ) <= r@[r@.len() - 1].downloads_new || exists|k: int|
                        0 <= k < r@.len() && (#[trigger] r@[k]).downloads_new == spec_rank_delta(
                            data.data@[self.indices@[i] as int],
                            start,
                            end,
                            *fallback_end,
                        ))
            }),
    {
        let start_date = match year {
            Option::Some(y) => Date { year: y, month: 1, day: 1 },
            Option::None => Date { year: 2020, month: 11, day: 1 },
        };
        let end_date = match year {
            Option::Some(y) => Date { year: y + 1, month: 1, day: 1 },
            Option::None => *fallback_end,
        };
        let ghost datas = data.data@;
        let ghost idxs = self.indices@;
        let tmp = self.gather_rank_pool(
            data,
            &start_date,
            &end_date,
            restrict_release_date,
            fallback_end,
        );
        let ghost pool = tmp@;
        let ranked = self.rank_pool(
            tmp,
            Ghost(datas),
            Ghost(idxs),
            Ghost(start_date),
            Ghost(end_date),
            Ghost(restrict_release_date),
            Ghost(*fallback_end),
        );
        let r = self.render_rank(
            data,
            &ranked,
            count,
            &start_date,
            &end_date,
            restrict_release_date,
            fallback_end,
        );
        proof {
            broadcast use vstd::seq_lib::group_to_multiset_ensures;

            assert(ranked@.to_multiset() == pool.to_multiset());
            let values = Seq::new(r@.len(), |j: int| r@[j].downloads_new);
            assert forall|i: int|
                0 <= i < idxs.len() && spec_rank_qualifies(
                    datas[(#[trigger] idxs[i]) as int],
                    start_date,
                    end_date,
                    restrict_release_date,
                    *fallback_end,
                ) implies (r@.len() == 0 || spec_rank_delta(
                datas[idxs[i] as int],
                start_date,
                end_date,
                *fallback_end,
            ) <= r@[r@.len() - 1].downloads_new || exists|k: int|
                0 <= k < r@.len() && (#[trigger] r@[k]).downloads_new == spec_rank_delta(
                    datas[idxs[i] as int],
                    start_date,
                    end_date,
                    *fallback_end,
                )) by {
                if r@.len() > 0 {
                    let d = spec_rank_delta(
                        datas[idxs[i] as int],
                        start_date,
                        end_date,
                        *fallback_end,
                    );
                    lemma_rank_maximality(pool, ranked@, values, d as u32);
                    if exists|k: int| 0 <= k < values.len() && #[trigger] values[k] == d {
                        let k = choose|k: int| 0 <= k < values.len() && #[trigger] values[k] == d;
                        assert(r@[k].downloads_new == d);
                    } else {
                        assert(d <= values[values.len() - 1]);
                        assert(values[r@.len() - 1] == r@[r@.len() - 1].downloads_new);
                    }
                }
            }
        }
        r
    }
}

/// The gathered tuple (index, gain, start figure) describes a qualifying
/// view entity.
pub open spec fn rank_item_ok(
    datas: Seq<FullPluginData>,
    idxs: Seq<usize>,
    start: Date,
    end: Date,
    restrict: bool,
    fallback_end: Date,
    item: (usize, u32, u32),
) -> bool {
    exists|i: int|
        {
            &&& 0 <= i < idxs.len()
            &&& (#[trigger] idxs[i]) == item.0
            &&& {
                let p = datas[item.0 as int];
                let h = p.data.download_history.0@;
                let ds = spec_first_in_window(
                    h,
                    day_index(start),
                    day_index(spec_rank_end(p, fallback_end)) + 1,
                );
                let de = spec_last_in_window(
                    h,
                    day_index(p.data.added_commit.date),
                    day_index(end),
                );
                &&& spec_rank_qualifies(p, start, end, restrict, fallback_end)
                &&& item.2 == ds->0
                &&& item.1 == de->0 - ds->0
            }
        }
}

/// One series point is sound: the week's sample exists, lies at or above
/// the base figure, and is shown shifted down by it.
pub open spec fn spec_hall_point_ok(
    h: Seq<DownloadRecord>,
    lo: int,
    base: u32,
    downloads: Option<u32>,
) -> bool {
    match spec_first_in_window(h, lo, lo + 7) {
        Option::Some(s) => s >= base && downloads == Option::Some((s - base) as u32),
        Option::None => false,
    }
}

/// The per-entity weekly series shown with a ranking entry: each point is a
/// week whose sample lies at or above the range-start figure, shifted down
/// by it.
fn hall_series(item: &FullPluginData, start: &Date, end: &Date, base: u32) -> (r: Vec<
    DownloadDataPoint,
>)
    requires
        download_history_wf(item.data.download_history.0@),
        valid_date(*start),
        start.year <= 1_000_001,
        valid_date(*end),
        end.year <= 1_000_001,
    ensures
        forall|k: int|
            0 <= k < r@.len() ==> ((#[trigger] r@[k]).delta is None && exists|lo: int|
                spec_hall_point_ok(
                    item.data.download_history.0@,
                    lo,
                    base,
                    r@[k].downloads,
                )),
{
    let dates = start.iterate_weekly_to(end);
    let mut r: Vec<DownloadDataPoint> = Vec::new();
    let mut k: usize = 0;
    while k < dates.len()
        invariant
            k <= dates@.len(),
            download_history_wf(item.data.download_history.0@),
            forall|i: int|
                0 <= i < dates@.len() ==> valid_date(#[trigger] dates@[i]) && dates@[i].year
                    <= 1_000_001,
            forall|j: int|
                0 <= j < r@.len() ==> ((#[trigger] r@[j]).delta is None && exists|lo: int|
                    spec_hall_point_ok(
                        item.data.download_history.0@,
                        lo,
                        base,
                        r@[j].downloads,
                    )),
        decreases dates@.len() - k,
    {
        let date = dates[k];
        match item.find_downloads_in_week(&date) {
            Option::Some(s) => {
                if s >= base {
                    r.push(
                        DownloadDataPoint {
                            date: date.to_fancy_string(),
                            downloads: Some(s - base),
                            delta: None,
                        },
                    );
                    proof {
                        assert(spec_hall_point_ok(
                            item.data.download_history.0@,
                            day_index(dates@[k as int]),
                            base,
                            r@.last().downloads,
                        ));
                    }
                }
            },
            Option::None => {},
        }
        k = k + 1;
    }
    r
}

/// The integer core of the repository-tooling breakdown. Every figure is a
/// plain count over the view; the percentage normalization happens at the
/// reporting edge.
#[derive(Debug, Clone)]
pub struct PluginRepoDataPoints {
    /// Per package manager, in the fixed variant order: its identifier and
    /// how many scanned repositories carry its lock file.
    pub package_managers: Vec<(String, u32)>,
    pub no_package_managers: u32,
    /// Per bundler, in the fixed variant order.
    pub bundlers: Vec<(String, u32)>,
    pub no_bundlers: u32,
    /// Per testing framework, in the fixed variant order.
    pub testing_frameworks: Vec<(String, u32)>,
    pub no_testing_frameworks: u32,
    pub beta_manifest: u32,
    pub typescript: u32,
}

/// The repository scan of one record, when it succeeded.
pub open spec fn spec_repo_of(p: FullPluginData) -> Option<PluginRepoData> {
    match p.extended {
        Option::Some(e) => match e.repo {
            Result::Ok(repo) => Option::Some(repo),
            Result::Err(_) => Option::None,
        },
        Option::None => Option::None,
    }
}

/// How many view entities have a successful scan satisfying the predicate.
pub open spec fn spec_repo_count(
    datas: Seq<FullPluginData>,
    idxs: Seq<usize>,
    pred: spec_fn(PluginRepoData) -> bool,
) -> int
    decreases idxs.len(),
{
    if idxs.len() == 0 {
        0
    } else {
        spec_repo_count(datas, idxs.drop_last(), pred) + (match spec_repo_of(
            datas[idxs.last() as int],
        ) {
            Option::Some(repo) => if pred(repo) {
                1int
            } else {
                0int
            },
            Option::None => 0int,
        })
    }
}

impl PluginDataArrayView {
    /// How many scanned repositories carry the package manager's lock file.
    fn count_with_pm(&self, data: &PluginDataArray, pm: crate::packages::PackageManager) -> (r: u32)
        requires
            view_wf(self.indices@, data.data@),
            self.indices@.len() <= 1_000_000,
        ensures
            r == spec_repo_count(data.data@, self.indices@, (|repo: PluginRepoData| repo.package_managers@.contains(pm))),
    {
        let ghost pred = (|repo: PluginRepoData| repo.package_managers@.contains(pm));
        let mut count: u32 = 0;
        let mut i: usize = 0;
        proof {
            assert(self.indices@.subrange(0, 0) =~= Seq::<usize>::empty());
        }
        while i < self.indices.len()
            invariant
                i <= self.indices@.len(),
                view_wf(self.indices@, data.data@),
                self.indices@.len() <= 1_000_000,
                pred == ((|repo: PluginRepoData| repo.package_managers@.contains(pm))),
                count == spec_repo_count(data.data@, self.indices@.subrange(0, i as int), pred),
                count <= i,
            decreases self.indices@.len() - i,
        {
            let ghost pre = self.indices@.subrange(0, i as int);
            let ghost cur = self.indices@.subrange(0, i + 1);
            proof {
                assert(cur.drop_last() =~= pre);
                assert(cur.last() == self.indices@[i as int]);
            }
            let item = &data.data[self.indices[i]];
            match item.repo_data() {
                Option::Some(repo) => {
                    if pm_list_contains(&repo.package_managers, pm) {
                        count = count + 1;
                    }
                },
                Option::None => {},
            }
            i = i + 1;
        }
        proof {
            assert(self.indices@.subrange(0, self.indices@.len() as int) =~= self.indices@);
        }
        count
    }

    /// How many scanned repositories carry no lock file at all.
    fn count_no_pm(&self, data: &PluginDataArray) -> (r: u32)
        requires
            view_wf(self.indices@, data.data@),
            self.indices@.len() <= 1_000_000,
        ensures
            r == spec_repo_count(data.data@, self.indices@, (|repo: PluginRepoData| repo.package_managers@.len() == 0)),
    {
        let ghost pred = (|repo: PluginRepoData| repo.package_managers@.len() == 0);
        let mut count: u32 = 0;
        let mut i: usize = 0;
        proof {
            assert(self.indices@.subrange(0, 0) =~= Seq::<usize>::empty());
        }
        while i < self.indices.len()
            invariant
                i <= self.indices@.len(),
                view_wf(self.indices@, data.data@),
                self.indices@.len() <= 1_000_000,
                pred == ((|repo: PluginRepoData| repo.package_managers@.len() == 0)),
                count == spec_repo_count(data.data@, self.indices@.subrange(0, i as int), pred),
                count <= i,
            decreases self.indices@.len() - i,
        {
            let ghost pre = self.indices@.subrange(0, i as int);
            let ghost cur = self.indices@.subrange(0, i + 1);
            proof {
                assert(cur.drop_last() =~= pre);
                assert(cur.last() == self.indices@[i as int]);
            }
            let item = &data.data[self.indices[i]];
            match item.repo_data() {
                Option::Some(repo) => {
                    if repo.package_managers.len() == 0 {
                        count = count + 1;
                    }
                },
                Option::None => {},
            }
            i = i + 1;
        }
        proof {
            assert(self.indices@.subrange(0, self.indices@.len() as int) =~= self.indices@);
        }
        count
    }

    /// How many scanned repositories depend on the bundler.
    fn count_with_bundler(&self, data: &PluginDataArray, b: crate::bundlers::Bundler) -> (r: u32)
        requires
            view_wf(self.indices@, data.data@),
            self.indices@.len() <= 1_000_000,
        ensures
            r == spec_repo_count(data.data@, self.indices@, (|repo: PluginRepoData| repo.bundlers@.contains(b))),
    {
        let ghost pred = (|repo: PluginRepoData| repo.bundlers@.contains(b));
        let mut count: u32 = 0;
        let mut i: usize = 0;
        proof {
            assert(self.indices@.subrange(0, 0) =~= Seq::<usize>::empty());
        }
        while i < self.indices.len()
            invariant
                i <= self.indices@.len(),
                view_wf(self.indices@, data.data@),
                self.indices@.len() <= 1_000_000,
                pred == ((|repo: PluginRepoData| repo.bundlers@.contains(b))),
                count == spec_repo_count(data.data@, self.indices@.subrange(0, i as int), pred),
                count <= i,
            decreases self.indices@.len() - i,
        {
            let ghost pre = self.indices@.subrange(0, i as int);
            let ghost cur = self.indices@.subrange(0, i + 1);
            proof {
                assert(cur.drop_last() =~= pre);
                assert(cur.last() == self.indices@[i as int]);
            }
            let item = &data.data[self.indices[i]];
            match item.repo_data() {
                Option::Some(repo) => {
                    if bundler_list_has(&repo.bundlers, b) {
                        count = count + 1;
                    }
                },
                Option::None => {},
            }
            i = i + 1;
        }
        proof {
            assert(self.indices@.subrange(0, self.indices@.len() as int) =~= self.indices@);
        }
        count
    }

    /// How many scanned repositories use no bundler.
    fn count_no_bundlers(&self, data: &PluginDataArray) -> (r: u32)
        requires
            view_wf(self.indices@, data.data@),
            self.indices@.len() <= 1_000_000,
        ensures
            r == spec_repo_count(data.data@, self.indices@, (|repo: PluginRepoData| repo.bundlers@.len() == 0)),
    {
        let ghost pred = (|repo: PluginRepoData| repo.bundlers@.len() == 0);
        let mut count: u32 = 0;
        let mut i: usize = 0;
        proof {
            assert(self.indices@.subrange(0, 0) =~= Seq::<usize>::empty());
        }
        while i < self.indices.len()
            invariant
                i <= self.indices@.len(),
                view_wf(self.indices@, data.data@),
                self.indices@.len() <= 1_000_000,
                pred == ((|repo: PluginRepoData| repo.bundlers@.len() == 0)),
                count == spec_repo_count(data.data@, self.indices@.subrange(0, i as int), pred),
                count <= i,
            decreases self.indices@.len() - i,
        {
            let ghost pre = self.indices@.subrange(0, i as int);
            let ghost cur = self.indices@.subrange(0, i + 1);
            proof {
                assert(cur.drop_last() =~= pre);
                assert(cur.last() == self.indices@[i as int]);
            }
            let item = &data.data[self.indices[i]];
            match item.repo_data() {
                Option::Some(repo) => {
                    if repo.bundlers.len() == 0 {
                        count = count + 1;
                    }
                },
                Option::None => {},
            }
            i = i + 1;
        }
        proof {
            assert(self.indices@.subrange(0, self.indices@.len() as int) =~= self.indices@);
        }
        count
    }

    /// How many scanned repositories depend on the testing framework.
    fn count_with_tf(&self, data: &PluginDataArray, tf: crate::testing::TestingFramework) -> (r: u32)
        requires
            view_wf(self.indices@, data.data@),
            self.indices@.len() <= 1_000_000,
        ensures
            r == spec_repo_count(data.data@, self.indices@, (|repo: PluginRepoData| repo.testing_frameworks@.contains(tf))),
    {
        let ghost pred = (|repo: PluginRepoData| repo.testing_frameworks@.contains(tf));
        let mut count: u32 = 0;
        let mut i: usize = 0;
        proof {
            assert(self.indices@.subrange(0, 0) =~= Seq::<usize>::empty());
        }
        while i < self.indices.len()
            invariant
                i <= self.indices@.len(),
                view_wf(self.indices@, data.data@),
                self.indices@.len() <= 1_000_000,
                pred == ((|repo: PluginRepoData| repo.testing_frameworks@.contains(tf))),
                count == spec_repo_count(data.data@, self.indices@.subrange(0, i as int), pred),
                count <= i,
            decreases self.indices@.len() - i,
        {
            let ghost pre = self.indices@.subrange(0, i as int);
            let ghost cur = self.indices@.subrange(0, i + 1);
            proof {
                assert(cur.drop_last() =~= pre);
                assert(cur.last() == self.indices@[i as int]);
            }
            let item = &data.data[self.indices[i]];
            match item.repo_data() {
                Option::Some(repo) => {
                    if tf_list_has(&repo.testing_frameworks, tf) {
                        count = count + 1;
                    }
                },
                Option::None => {},
            }
            i = i + 1;
        }
        proof {
            assert(self.indices@.subrange(0, self.indices@.len() as int) =~= self.indices@);
        }
        count
    }

    /// How many scanned repositories use no testing framework.
    fn count_no_tf(&self, data: &PluginDataArray) -> (r: u32)
        requires
            view_wf(self.indices@, data.data@),
            self.indices@.len() <= 1_000_000,
        ensures
            r == spec_repo_count(data.data@, self.indices@, (|repo: PluginRepoData| repo.testing_frameworks@.len() == 0)),
    {
        let ghost pred = (|repo: PluginRepoData| repo.testing_frameworks@.len() == 0);
        let mut count: u32 = 0;
        let mut i: usize = 0;
        proof {
            assert(self.indices@.subrange(0, 0) =~= Seq::<usize>::empty());
        }
        while i < self.indices.len()
            invariant
                i <= self.indices@.len(),
                view_wf(self.indices@, data.data@),
                self.indices@.len() <= 1_000_000,
                pred == ((|repo: PluginRepoData| repo.testing_frameworks@.len() == 0)),
                count == spec_repo_count(data.data@, self.indices@.subrange(0, i as int), pred),
                count <= i,
            decreases self.indices@.len() - i,
        {
            let ghost pre = self.indices@.subrange(0, i as int);
            let ghost cur = self.indices@.subrange(0, i + 1);
            proof {
                assert(cur.drop_last() =~= pre);
                assert(cur.last() == self.indices@[i as int]);
            }
            let item = &data.data[self.indices[i]];
            match item.repo_data() {
                Option::Some(repo) => {
                    if repo.testing_frameworks.len() == 0 {
                        count = count + 1;
                    }
                },
                Option::None => {},
            }
            i = i + 1;
        }
        proof {
            assert(self.indices@.subrange(0, self.indices@.len() as int) =~= self.indices@);
        }
        count
    }

    /// How many scanned repositories publish a beta manifest.
    fn count_beta_manifest(&self, data: &PluginDataArray) -> (r: u32)
        requires
            view_wf(self.indices@, data.data@),
            self.indices@.len() <= 1_000_000,
        ensures
            r == spec_repo_count(data.data@, self.indices@, (|repo: PluginRepoData| repo.has_beta_manifest)),
    {
        let ghost pred = (|repo: PluginRepoData| repo.has_beta_manifest);
        let mut count: u32 = 0;
        let mut i: usize = 0;
        proof {
            assert(self.indices@.subrange(0, 0) =~= Seq::<usize>::empty());
        }
        while i < self.indices.len()
            invariant
                i <= self.indices@.len(),
                view_wf(self.indices@, data.data@),
                self.indices@.len() <= 1_000_000,
                pred == ((|repo: PluginRepoData| repo.has_beta_manifest)),
                count == spec_repo_count(data.data@, self.indices@.subrange(0, i as int), pred),
                count <= i,
            decreases self.indices@.len() - i,
        {
            let ghost pre = self.indices@.subrange(0, i as int);
            let ghost cur = self.indices@.subrange(0, i + 1);
            proof {
                assert(cur.drop_last() =~= pre);
                assert(cur.last() == self.indices@[i as int]);
            }
            let item = &data.data[self.indices[i]];
            match item.repo_data() {
                Option::Some(repo) => {
                    if repo.has_beta_manifest {
                        count = count + 1;
                    }
                },
                Option::None => {},
            }
            i = i + 1;
        }
        proof {
            assert(self.indices@.subrange(0, self.indices@.len() as int) =~= self.indices@);
        }
        count
    }

    /// How many scanned repositories use typed sources.
    fn count_typescript(&self, data: &PluginDataArray) -> (r: u32)
        requires
            view_wf(self.indices@, data.data@),
            self.indices@.len() <= 1_000_000,
        ensures
            r == spec_repo_count(data.data@, self.indices@, (|repo: PluginRepoData| repo.uses_typescript)),
    {
        let ghost pred = (|repo: PluginRepoData| repo.uses_typescript);
        let mut count: u32 = 0;
        let mut i: usize = 0;
        proof {
            assert(self.indices@.subrange(0, 0) =~= Seq::<usize>::empty());
        }
        while i < self.indices.len()
            invariant
                i <= self.indices@.len(),
                view_wf(self.indices@, data.data@),
                self.indices@.len() <= 1_000_000,
                pred == ((|repo: PluginRepoData| repo.uses_typescript)),
                count == spec_repo_count(data.data@, self.indices@.subrange(0, i as int), pred),
                count <= i,
            decreases self.indices@.len() - i,
        {
            let ghost pre = self.indices@.subrange(0, i as int);
            let ghost cur = self.indices@.subrange(0, i + 1);
            proof {
                assert(cur.drop_last() =~= pre);
                assert(cur.last() == self.indices@[i as int]);
            }
            let item = &data.data[self.indices[i]];
            match item.repo_data() {
                Option::Some(repo) => {
                    if repo.uses_typescript {
                        count = count + 1;
                    }
                },
                Option::None => {},
            }
            i = i + 1;
        }
        proof {
            assert(self.indices@.subrange(0, self.indices@.len() as int) =~= self.indices@);
        }
        count
    }

    /// The tooling breakdown over the view's scanned repositories: per tool
    /// its usage count, plus the counts of repositories using none, of beta
    /// manifests, and of typed sources. Tools nobody uses are reported with
    /// a zero count; the percentage normalization happens at the reporting
    /// edge.
    pub fn repo_data_points(&self, data: &PluginDataArray) -> (r: PluginRepoDataPoints)
        requires
            view_wf(self.indices@, data.data@),
            self.indices@.len() <= 1_000_000,
        ensures
            ({
                let datas = data.data@;
                let idxs = self.indices@;
                &&& r.package_managers@.len() == crate::packages::spec_pm_variants().len()
                &&& forall|w: int|
                    0 <= w < r.package_managers@.len() ==> (#[trigger] r.package_managers@[w]).0@
                        == crate::packages::spec_pm_identifier(
                        crate::packages::spec_pm_variants()[w],
                    ) && r.package_managers@[w].1 == spec_repo_count(
                        datas,
                        idxs,
                        (|repo: PluginRepoData|
                            repo.package_managers@.contains(
                                crate::packages::spec_pm_variants()[w],
                            )),
                    )
                &&& r.no_package_managers == spec_repo_count(
                    datas,
                    idxs,
                    (|repo: PluginRepoData| repo.package_managers@.len() == 0),
                )
                &&& r.bundlers@.len() == 5
                &&& forall|w: int|
                    0 <= w < r.bundlers@.len() ==> (#[trigger] r.bundlers@[w]).1
                        == spec_repo_count(
                        datas,
                        idxs,
                        (|repo: PluginRepoData|
                            repo.bundlers@.contains(
                                seq![
                                    crate::bundlers::Bundler::Esbuild,
                                    crate::bundlers::Bundler::Rollup,
                                    crate::bundlers::Bundler::Webpack,
                                    crate::bundlers::Bundler::Vite,
                                    crate::bundlers::Bundler::Turbo,
                                ][w],
                            )),
                    )
                &&& r.no_bundlers == spec_repo_count(
                    datas,
                    idxs,
                    (|repo: PluginRepoData| repo.bundlers@.len() == 0),
                )
                &&& r.testing_frameworks@.len() == crate::testing::spec_tf_variants().len()
                &&& forall|w: int|
                    0 <= w < r.testing_frameworks@.len() ==> (
                    #[trigger] r.testing_frameworks@[w]).1 == spec_repo_count(
                        datas,
                        idxs,
                        (|repo: PluginRepoData|
                            repo.testing_frameworks@.contains(
                                crate::testing::spec_tf_variants()[w],
                            )),
                    )
                &&& r.no_testing_frameworks == spec_repo_count(
                    datas,
                    idxs,
                    (|repo: PluginRepoData| repo.testing_frameworks@.len() == 0),
                )
                &&& r.beta_manifest == spec_repo_count(
                    datas,
                    idxs,
                    (|repo: PluginRepoData| repo.has_beta_manifest),
                )
                &&& r.typescript == spec_repo_count(
                    datas,
                    idxs,
                    (|repo: PluginRepoData| repo.uses_typescript),
                )
            }),
    {
        let mut package_managers: Vec<(String, u32)> = Vec::new();
        let pm_variants = crate::packages::PackageManager::iter_variants();
        let mut w: usize = 0;
        while w < pm_variants.len()
            invariant
                w <= pm_variants@.len(),
                pm_variants@ == crate::packages::spec_pm_variants(),
                view_wf(self.indices@, data.data@),
                self.indices@.len() <= 1_000_000,
                package_managers@.len() == w as int,
                forall|j: int|
                    0 <= j < w ==> (#[trigger] package_managers@[j]).0@
                        == crate::packages::spec_pm_identifier(
                        crate::packages::spec_pm_variants()[j],
                    ) && package_managers@[j].1 == spec_repo_count(
                        data.data@,
                        self.indices@,
                        (|repo: PluginRepoData|
                            repo.package_managers@.contains(
                                crate::packages::spec_pm_variants()[j],
                            )),
                    ),
            decreases pm_variants@.len() - w,
        {
            let pm = pm_variants[w];
            let count = self.count_with_pm(data, pm);
            package_managers.push((String::from_str(pm.get_identifier()), count));
            w = w + 1;
        }
        let no_package_managers = self.count_no_pm(data);

        let mut bundlers: Vec<(String, u32)> = Vec::new();
        let b_variants = crate::bundlers::Bundler::iter_variants();
        let mut w: usize = 0;
        while w < b_variants.len()
            invariant
                w <= b_variants@.len(),
                b_variants@ == seq![
                    crate::bundlers::Bundler::Esbuild,
                    crate::bundlers::Bundler::Rollup,
                    crate::bundlers::Bundler::Webpack,
                    crate::bundlers::Bundler::Vite,
                    crate::bundlers::Bundler::Turbo,
                ],
                view_wf(self.indices@, data.data@),
                self.indices@.len() <= 1_000_000,
                bundlers@.len() == w as int,
                forall|j: int|
                    0 <= j < w ==> (#[trigger] bundlers@[j]).1 == spec_repo_count(
                        data.data@,
                        self.indices@,
                        (|repo: PluginRepoData|
                            repo.bundlers@.contains(
                                seq![
                                    crate::bundlers::Bundler::Esbuild,
                                    crate::bundlers::Bundler::Rollup,
                                    crate::bundlers::Bundler::Webpack,
                                    crate::bundlers::Bundler::Vite,
                                    crate::bundlers::Bundler::Turbo,
                                ][j],
                            )),
                    ),
            decreases b_variants@.len() - w,
        {
            let b = b_variants[w];
            let count = self.count_with_bundler(data, b);
            bundlers.push((String::from_str(b.get_identifier()), count));
            w = w + 1;
        }
        let no_bundlers = self.count_no_bundlers(data);

        let mut testing_frameworks: Vec<(String, u32)> = Vec::new();
        let tf_variants = crate::testing::TestingFramework::iter_variants();
        let mut w: usize = 0;
        while w < tf_variants.len()
            invariant
                w <= tf_variants@.len(),
                tf_variants@ == crate::testing::spec_tf_variants(),
                view_wf(self.indices@, data.data@),
                self.indices@.len() <= 1_000_000,
                testing_frameworks@.len() == w as int,
                forall|j: int|
                    0 <= j < w ==> (#[trigger] testing_frameworks@[j]).1 == spec_repo_count(
                        data.data@,
                        self.indices@,
                        (|repo: PluginRepoData|
                            repo.testing_frameworks@.contains(
                                crate::testing::spec_tf_variants()[j],
                            )),
                    ),
            decreases tf_variants@.len() - w,
        {
            let tf = tf_variants[w];
            let count = self.count_with_tf(data, tf);
            testing_frameworks.push((String::from_str(tf.get_identifier()), count));
            w = w + 1;
        }
        let no_testing_frameworks = self.count_no_tf(data);

        let beta_manifest = self.count_beta_manifest(data);
        let typescript = self.count_typescript(data);

        PluginRepoDataPoints {
            package_managers,
            no_package_managers,
            bundlers,
            no_bundlers,
            testing_frameworks,
            no_testing_frameworks,
            beta_manifest,
            typescript,
        }
    }
}

fn pm_list_contains(list: &Vec<crate::packages::PackageManager>, pm: crate::packages::PackageManager)
    -> (r: bool)
    ensures
        r == list@.contains(pm),
{
    let mut i: usize = 0;
    while i < list.len()
        invariant
            i <= list@.len(),
            forall|j: int| 0 <= j < i ==> list@[j] != pm,
        decreases list@.len() - i,
    {
        if list[i] == pm {
            return true;
        }
        i = i + 1;
    }
    false
}

fn bundler_list_has(list: &Vec<crate::bundlers::Bundler>, b: crate::bundlers::Bundler) -> (r: bool)
    ensures
        r == list@.contains(b),
{
    let mut i: usize = 0;
    while i < list.len()
        invariant
            i <= list@.len(),
            forall|j: int| 0 <= j < i ==> list@[j] != b,
        decreases list@.len() - i,
    {
        if list[i] == b {
            return true;
        }
        i = i + 1;
    }
    false
}

fn tf_list_has(list: &Vec<crate::testing::TestingFramework>, tf: crate::testing::TestingFramework)
    -> (r: bool)
    ensures
        r == list@.contains(tf),
{
    let mut i: usize = 0;
    while i < list.len()
        invariant
            i <= list@.len(),
            forall|j: int| 0 <= j < i ==> list@[j] != tf,
        decreases list@.len() - i,
    {
        if list[i] == tf {
            return true;
        }
        i = i + 1;
    }
    false
}

/// The integer core of the license breakdown: per name, how much of the
/// view's scanned repositories its class covers; the percentage
/// normalization happens at the reporting edge.
#[derive(Debug)]
pub struct PluginLicenseDataPoints {
    pub licenses: Vec<(String, u32)>,
    pub permissions: Vec<(String, u32)>,
    pub conditions: Vec<(String, u32)>,
    pub limitations: Vec<(String, u32)>,
    pub descriptions: crate::license::LicenseDescriptionNested,
}

/// The first corpus entry whose identifier is the name.
pub open spec fn spec_corpus_entry(corpus: Seq<LicenseData>, name: Seq<char>) -> Option<
    LicenseData,
>
    decreases corpus.len(),
{
    if corpus.len() == 0 {
        Option::None
    } else if corpus[0].spdx_id@ == name {
        Option::Some(corpus[0])
    } else {
        spec_corpus_entry(corpus.skip(1), name)
    }
}

/// The label a scan's license finding is counted under: a known name found
/// in the corpus counts under that name, a known name the corpus lacks
/// counts as unrecognized, anything else under its printed form.
pub open spec fn spec_license_label(corpus: Seq<LicenseData>, info: LicenseInfo) -> Seq<char> {
    match info {
        LicenseInfo::Known(name) => if spec_corpus_entry(corpus, name@) is Some {
            name@
        } else {
            spec_license_string(LicenseInfo::Unrecognized)
        },
        _ => spec_license_string(info),
    }
}

/// How many strings of the list read as the name.
pub open spec fn spec_name_count(xs: Seq<String>, x: Seq<char>) -> int
    decreases xs.len(),
{
    if xs.len() == 0 {
        0
    } else {
        spec_name_count(xs.drop_last(), x) + (if xs.last()@ == x {
            1int
        } else {
            0int
        })
    }
}

proof fn lemma_name_count_le(xs: Seq<String>, x: Seq<char>)
    ensures
        0 <= spec_name_count(xs, x) <= xs.len(),
    decreases xs.len(),
{
    if xs.len() > 0 {
        lemma_name_count_le(xs.drop_last(), x);
    }
}

/// How many of the view's scanned repositories are counted under the
/// license label.
pub open spec fn spec_label_count(
    datas: Seq<FullPluginData>,
    idxs: Seq<usize>,
    corpus: Seq<LicenseData>,
    n: Seq<char>,
) -> int
    decreases idxs.len(),
{
    if idxs.len() == 0 {
        0
    } else {
        spec_label_count(datas, idxs.drop_last(), corpus, n) + (match spec_repo_of(
            datas[idxs.last() as int],
        ) {
            Option::Some(repo) => if spec_license_label(corpus, repo.file_license) == n {
                1int
            } else {
                0int
            },
            Option::None => 0int,
        })
    }
}

/// How often the scan's corpus entry lists the permission.
pub open spec fn spec_perm_weight(corpus: Seq<LicenseData>, info: LicenseInfo, name: Seq<char>)
    -> int {
    match info {
        LicenseInfo::Known(n) => match spec_corpus_entry(corpus, n@) {
            Option::Some(ld) => spec_name_count(ld.permissions@, name),
            Option::None => 0,
        },
        _ => 0,
    }
}

/// How often the scan's corpus entry lists the condition.
pub open spec fn spec_cond_weight(corpus: Seq<LicenseData>, info: LicenseInfo, name: Seq<char>)
    -> int {
    match info {
        LicenseInfo::Known(n) => match spec_corpus_entry(corpus, n@) {
            Option::Some(ld) => spec_name_count(ld.conditions@, name),
            Option::None => 0,
        },
        _ => 0,
    }
}

/// How often the scan's corpus entry lists the limitation.
pub open spec fn spec_lim_weight(corpus: Seq<LicenseData>, info: LicenseInfo, name: Seq<char>)
    -> int {
    match info {
        LicenseInfo::Known(n) => match spec_corpus_entry(corpus, n@) {
            Option::Some(ld) => spec_name_count(ld.limitations@, name),
            Option::None => 0,
        },
        _ => 0,
    }
}

/// The total of the permission over the view's scanned repositories.
pub open spec fn spec_perm_total(
    datas: Seq<FullPluginData>,
    idxs: Seq<usize>,
    corpus: Seq<LicenseData>,
    name: Seq<char>,
) -> int
    decreases idxs.len(),
{
    if idxs.len() == 0 {
        0
    } else {
        spec_perm_total(datas, idxs.drop_last(), corpus, name) + (match spec_repo_of(
            datas[idxs.last() as int],
        ) {
            Option::Some(repo) => spec_perm_weight(corpus, repo.file_license, name),
            Option::None => 0,
        })
    }
}

/// The total of the condition over the view's scanned repositories.
pub open spec fn spec_cond_total(
    datas: Seq<FullPluginData>,
    idxs: Seq<usize>,
    corpus: Seq<LicenseData>,
    name: Seq<char>,
) -> int
    decreases idxs.len(),
{
    if idxs.len() == 0 {
        0
    } else {
        spec_cond_total(datas, idxs.drop_last(), corpus, name) + (match spec_repo_of(
            datas[idxs.last() as int],
        ) {
            Option::Some(repo) => spec_cond_weight(corpus, repo.file_license, name),
            Option::None => 0,
        })
    }
}

/// The total of the limitation over the view's scanned repositories.
pub open spec fn spec_lim_total(
    datas: Seq<FullPluginData>,
    idxs: Seq<usize>,
    corpus: Seq<LicenseData>,
    name: Seq<char>,
) -> int
    decreases idxs.len(),
{
    if idxs.len() == 0 {
        0
    } else {
        spec_lim_total(datas, idxs.drop_last(), corpus, name) + (match spec_repo_of(
            datas[idxs.last() as int],
        ) {
            Option::Some(repo) => spec_lim_weight(corpus, repo.file_license, name),
            Option::None => 0,
        })
    }
}

/// A found corpus entry is one of the corpus's elements.
proof fn lemma_corpus_entry_member(corpus: Seq<LicenseData>, name: Seq<char>)
    ensures
        spec_corpus_entry(corpus, name) matches Option::Some(ld) ==> exists|i: int|
            0 <= i < corpus.len() && #[trigger] corpus[i] == ld,
    decreases corpus.len(),
{
    if corpus.len() > 0 && corpus[0].spdx_id@ != name {
        lemma_corpus_entry_member(corpus.skip(1), name);
        match spec_corpus_entry(corpus, name) {
            Option::Some(ld) => {
                let i = choose|i: int|
                    0 <= i < corpus.skip(1).len() && #[trigger] corpus.skip(1)[i] == ld;
                assert(corpus[i + 1] == corpus.skip(1)[i]);
            },
            Option::None => {},
        }
    }
}

/// The label count over a view never exceeds its length.
proof fn lemma_label_count_bound(
    datas: Seq<FullPluginData>,
    idxs: Seq<usize>,
    corpus: Seq<LicenseData>,
    n: Seq<char>,
)
    ensures
        0 <= spec_label_count(datas, idxs, corpus, n) <= idxs.len(),
    decreases idxs.len(),
{
    if idxs.len() > 0 {
        lemma_label_count_bound(datas, idxs.drop_last(), corpus, n);
    }
}

/// The corpus caps every property list of the corpus entries.
pub open spec fn corpus_capped(corpus: Seq<LicenseData>) -> bool {
    forall|c: int|
        0 <= c < corpus.len() ==> (#[trigger] corpus[c]).permissions@.len() <= 1000
            && corpus[c].conditions@.len() <= 1000 && corpus[c].limitations@.len() <= 1000
}

/// With the corpus capped, every property weight lies between zero and a
/// thousand.
proof fn lemma_weights_bound(corpus: Seq<LicenseData>, info: LicenseInfo, name: Seq<char>)
    requires
        corpus_capped(corpus),
    ensures
        0 <= spec_perm_weight(corpus, info, name) <= 1000,
        0 <= spec_cond_weight(corpus, info, name) <= 1000,
        0 <= spec_lim_weight(corpus, info, name) <= 1000,
{
    match info {
        LicenseInfo::Known(n) => {
            lemma_corpus_entry_member(corpus, n@);
            match spec_corpus_entry(corpus, n@) {
                Option::Some(ld) => {
                    let i = choose|i: int| 0 <= i < corpus.len() && #[trigger] corpus[i] == ld;
                    lemma_name_count_le(ld.permissions@, name);
                    lemma_name_count_le(ld.conditions@, name);
                    lemma_name_count_le(ld.limitations@, name);
                },
                Option::None => {},
            }
        },
        _ => {},
    }
}

/// With the corpus capped, the property totals are capped by a thousand per
/// view entity.
proof fn lemma_prop_totals_bound(
    datas: Seq<FullPluginData>,
    idxs: Seq<usize>,
    corpus: Seq<LicenseData>,
    name: Seq<char>,
)
    requires
        corpus_capped(corpus),
    ensures
        0 <= spec_perm_total(datas, idxs, corpus, name) <= 1000 * idxs.len(),
        0 <= spec_cond_total(datas, idxs, corpus, name) <= 1000 * idxs.len(),
        0 <= spec_lim_total(datas, idxs, corpus, name) <= 1000 * idxs.len(),
    decreases idxs.len(),
{
    if idxs.len() > 0 {
        lemma_prop_totals_bound(datas, idxs.drop_last(), corpus, name);
        match spec_repo_of(datas[idxs.last() as int]) {
            Option::Some(repo) => {
                lemma_weights_bound(corpus, repo.file_license, name);
            },
            Option::None => {},
        }
    }
}

/// One breakdown table is exact for a count: names pairwise distinct, each
/// row carries its name's count and is positive, and every name with a
/// positive count has a row.
pub open spec fn points_exact(points: Seq<(String, u32)>, count: spec_fn(Seq<char>) -> int) -> bool {
    &&& forall|w: int, v: int|
        0 <= w < v < points.len() ==> (#[trigger] points[w]).0@ != (#[trigger] points[v]).0@
    &&& forall|w: int|
        0 <= w < points.len() ==> (#[trigger] points[w]).1 == count(points[w].0@)
            && points[w].1 >= 1
    &&& forall|n: Seq<char>|
        #[trigger] count(n) >= 1 ==> exists|w: int|
            0 <= w < points.len() && (#[trigger] points[w]).0@ == n
}

/// A table stepped by one batch is exact for the stepped count.
proof fn lemma_points_step(
    pts0: Seq<(String, u32)>,
    pts1: Seq<(String, u32)>,
    names: Seq<String>,
    c_pre: spec_fn(Seq<char>) -> int,
    c_cur: spec_fn(Seq<char>) -> int,
)
    requires
        points_exact(pts0, c_pre),
        forall|n: Seq<char>| #[trigger] c_cur(n) == c_pre(n) + spec_name_count(names, n),
        forall|n: Seq<char>| #[trigger] c_pre(n) >= 0,
        pts1.len() >= pts0.len(),
        forall|w: int|
            0 <= w < pts0.len() ==> (#[trigger] pts1[w]).0@ == pts0[w].0@ && pts1[w].1
                == pts0[w].1 + spec_name_count(names, pts0[w].0@),
        forall|w: int|
            pts0.len() <= w < pts1.len() ==> (#[trigger] pts1[w]).1 == spec_name_count(
                names,
                pts1[w].0@,
            ) && spec_name_count(names, pts1[w].0@) >= 1 && !(exists|v: int|
                0 <= v < pts0.len() && (#[trigger] pts0[v]).0@ == pts1[w].0@),
        forall|w: int, v: int|
            0 <= w < v < pts1.len() ==> (#[trigger] pts1[w]).0@ != (#[trigger] pts1[v]).0@,
        forall|n: Seq<char>|
            spec_name_count(names, n) >= 1 ==> exists|w: int|
                0 <= w < pts1.len() && (#[trigger] pts1[w]).0@ == n,
    ensures
        points_exact(pts1, c_cur),
{
    assert forall|w: int|
        0 <= w < pts1.len() implies (#[trigger] pts1[w]).1 == c_cur(pts1[w].0@) && pts1[w].1
        >= 1 by {
        assert(c_cur(pts1[w].0@) == c_pre(pts1[w].0@) + spec_name_count(names, pts1[w].0@));
        lemma_name_count_le(names, pts1[w].0@);
        if w < pts0.len() {
            assert(pts0[w].1 == c_pre(pts0[w].0@) && pts0[w].1 >= 1);
        } else {
            if c_pre(pts1[w].0@) >= 1 {
                let v = choose|v: int| 0 <= v < pts0.len() && (#[trigger] pts0[v]).0@ == pts1[w].0@;
                assert(false);
            }
        }
    }
    assert forall|n: Seq<char>| #[trigger] c_cur(n) >= 1 implies exists|w: int|
        0 <= w < pts1.len() && (#[trigger] pts1[w]).0@ == n by {
        assert(c_cur(n) == c_pre(n) + spec_name_count(names, n));
        if c_pre(n) >= 1 {
            let v = choose|v: int| 0 <= v < pts0.len() && (#[trigger] pts0[v]).0@ == n;
            assert(pts1[v].0@ == n);
        } else {
            assert(spec_name_count(names, n) >= 1);
        }
    }
}

/// The license table is exact over the view: names pairwise distinct, each
/// row carries its label's count and is positive, and every label with a
/// positive count has a row.
pub open spec fn label_points_exact(
    points: Seq<(String, u32)>,
    datas: Seq<FullPluginData>,
    idxs: Seq<usize>,
    corpus: Seq<LicenseData>,
) -> bool {
    &&& forall|w: int, v: int|
        0 <= w < v < points.len() ==> (#[trigger] points[w]).0@ != (#[trigger] points[v]).0@
    &&& forall|w: int|
        0 <= w < points.len() ==> (#[trigger] points[w]).1 == spec_label_count(
            datas,
            idxs,
            corpus,
            points[w].0@,
        ) && points[w].1 >= 1
    &&& forall|n: Seq<char>|
        #[trigger] spec_label_count(datas, idxs, corpus, n) >= 1 ==> exists|w: int|
            0 <= w < points.len() && (#[trigger] points[w]).0@ == n
}

/// The permission table is exact over the view, in the same sense.
pub open spec fn perm_points_exact(
    points: Seq<(String, u32)>,
    datas: Seq<FullPluginData>,
    idxs: Seq<usize>,
    corpus: Seq<LicenseData>,
) -> bool {
    &&& forall|w: int, v: int|
        0 <= w < v < points.len() ==> (#[trigger] points[w]).0@ != (#[trigger] points[v]).0@
    &&& forall|w: int|
        0 <= w < points.len() ==> (#[trigger] points[w]).1 == spec_perm_total(
            datas,
            idxs,
            corpus,
            points[w].0@,
        ) && points[w].1 >= 1
    &&& forall|n: Seq<char>|
        #[trigger] spec_perm_total(datas, idxs, corpus, n) >= 1 ==> exists|w: int|
            0 <= w < points.len() && (#[trigger] points[w]).0@ == n
}

/// The condition table is exact over the view, in the same sense.
pub open spec fn cond_points_exact(
    points: Seq<(String, u32)>,
    datas: Seq<FullPluginData>,
    idxs: Seq<usize>,
    corpus: Seq<LicenseData>,
) -> bool {
    &&& forall|w: int, v: int|
        0 <= w < v < points.len() ==> (#[trigger] points[w]).0@ != (#[trigger] points[v]).0@
    &&& forall|w: int|
        0 <= w < points.len() ==> (#[trigger] points[w]).1 == spec_cond_total(
            datas,
            idxs,
            corpus,
            points[w].0@,
        ) && points[w].1 >= 1
    &&& forall|n: Seq<char>|
        #[trigger] spec_cond_total(datas, idxs, corpus, n) >= 1 ==> exists|w: int|
            0 <= w < points.len() && (#[trigger] points[w]).0@ == n
}

/// The limitation table is exact over the view, in the same sense.
pub open spec fn lim_points_exact(
    points: Seq<(String, u32)>,
    datas: Seq<FullPluginData>,
    idxs: Seq<usize>,
    corpus: Seq<LicenseData>,
) -> bool {
    &&& forall|w: int, v: int|
        0 <= w < v < points.len() ==> (#[trigger] points[w]).0@ != (#[trigger] points[v]).0@
    &&& forall|w: int|
        0 <= w < points.len() ==> (#[trigger] points[w]).1 == spec_lim_total(
            datas,
            idxs,
            corpus,
            points[w].0@,
        ) && points[w].1 >= 1
    &&& forall|n: Seq<char>|
        #[trigger] spec_lim_total(datas, idxs, corpus, n) >= 1 ==> exists|w: int|
            0 <= w < points.len() && (#[trigger] points[w]).0@ == n
}

/// A license table stepped by one batch whose per-name count matches the
/// count's step stays exact.
proof fn lemma_label_points_step(
    pts0: Seq<(String, u32)>,
    pts1: Seq<(String, u32)>,
    names: Seq<String>,
    datas: Seq<FullPluginData>,
    pre: Seq<usize>,
    cur: Seq<usize>,
    corpus: Seq<LicenseData>,
)
    requires
        label_points_exact(pts0, datas, pre, corpus),
        forall|n: Seq<char>|
            #[trigger] spec_label_count(datas, cur, corpus, n) == spec_label_count(
                datas,
                pre,
                corpus,
                n,
            ) + spec_name_count(names, n),
        pts1.len() >= pts0.len(),
        forall|w: int|
            0 <= w < pts0.len() ==> (#[trigger] pts1[w]).0@ == pts0[w].0@ && pts1[w].1
                == pts0[w].1 + spec_name_count(names, pts0[w].0@),
        forall|w: int|
            pts0.len() <= w < pts1.len() ==> (#[trigger] pts1[w]).1 == spec_name_count(
                names,
                pts1[w].0@,
            ) && spec_name_count(names, pts1[w].0@) >= 1 && !(exists|v: int|
                0 <= v < pts0.len() && (#[trigger] pts0[v]).0@ == pts1[w].0@),
        forall|w: int, v: int|
            0 <= w < v < pts1.len() ==> (#[trigger] pts1[w]).0@ != (#[trigger] pts1[v]).0@,
        forall|n: Seq<char>|
            spec_name_count(names, n) >= 1 ==> exists|w: int|
                0 <= w < pts1.len() && (#[trigger] pts1[w]).0@ == n,
    ensures
        label_points_exact(pts1, datas, cur, corpus),
{
    let c_pre = (|n: Seq<char>| spec_label_count(datas, pre, corpus, n));
    let c_cur = (|n: Seq<char>| spec_label_count(datas, cur, corpus, n));
    assert forall|w: int|
        0 <= w < pts0.len() implies (#[trigger] pts0[w]).1 == c_pre(pts0[w].0@) && pts0[w].1
        >= 1 by {}
    assert forall|n: Seq<char>| #[trigger] c_pre(n) >= 1 implies exists|w: int|
        0 <= w < pts0.len() && (#[trigger] pts0[w]).0@ == n by {}
    assert(points_exact(pts0, c_pre));
    assert forall|n: Seq<char>| #[trigger] c_cur(n) == c_pre(n) + spec_name_count(names, n) by {}
    assert forall|n: Seq<char>| #[trigger] c_pre(n) >= 0 by {
        lemma_label_count_bound(datas, pre, corpus, n);
    }
    lemma_points_step(pts0, pts1, names, c_pre, c_cur);
    assert forall|w: int|
        0 <= w < pts1.len() implies (#[trigger] pts1[w]).1 == spec_label_count(
        datas,
        cur,
        corpus,
        pts1[w].0@,
    ) && pts1[w].1 >= 1 by {
        assert(pts1[w].1 == c_cur(pts1[w].0@));
    }
    assert forall|n: Seq<char>|
        #[trigger] spec_label_count(datas, cur, corpus, n) >= 1 implies exists|w: int|
            0 <= w < pts1.len() && (#[trigger] pts1[w]).0@ == n by {
        assert(c_cur(n) == spec_label_count(datas, cur, corpus, n));
    }
}

/// A permission table stepped by one batch stays exact.
proof fn lemma_perm_points_step(
    pts0: Seq<(String, u32)>,
    pts1: Seq<(String, u32)>,
    names: Seq<String>,
    datas: Seq<FullPluginData>,
    pre: Seq<usize>,
    cur: Seq<usize>,
    corpus: Seq<LicenseData>,
)
    requires
        corpus_capped(corpus),
        perm_points_exact(pts0, datas, pre, corpus),
        forall|n: Seq<char>|
            #[trigger] spec_perm_total(datas, cur, corpus, n) == spec_perm_total(
                datas,
                pre,
                corpus,
                n,
            ) + spec_name_count(names, n),
        pts1.len() >= pts0.len(),
        forall|w: int|
            0 <= w < pts0.len() ==> (#[trigger] pts1[w]).0@ == pts0[w].0@ && pts1[w].1
                == pts0[w].1 + spec_name_count(names, pts0[w].0@),
        forall|w: int|
            pts0.len() <= w < pts1.len() ==> (#[trigger] pts1[w]).1 == spec_name_count(
                names,
                pts1[w].0@,
            ) && spec_name_count(names, pts1[w].0@) >= 1 && !(exists|v: int|
                0 <= v < pts0.len() && (#[trigger] pts0[v]).0@ == pts1[w].0@),
        forall|w: int, v: int|
            0 <= w < v < pts1.len() ==> (#[trigger] pts1[w]).0@ != (#[trigger] pts1[v]).0@,
        forall|n: Seq<char>|
            spec_name_count(names, n) >= 1 ==> exists|w: int|
                0 <= w < pts1.len() && (#[trigger] pts1[w]).0@ == n,
    ensures
        perm_points_exact(pts1, datas, cur, corpus),
{
    let c_pre = (|n: Seq<char>| spec_perm_total(datas, pre, corpus, n));
    let c_cur = (|n: Seq<char>| spec_perm_total(datas, cur, corpus, n));
    assert forall|w: int|
        0 <= w < pts0.len() implies (#[trigger] pts0[w]).1 == c_pre(pts0[w].0@) && pts0[w].1
        >= 1 by {}
    assert forall|n: Seq<char>| #[trigger] c_pre(n) >= 1 implies exists|w: int|
        0 <= w < pts0.len() && (#[trigger] pts0[w]).0@ == n by {}
    assert(points_exact(pts0, c_pre));
    assert forall|n: Seq<char>| #[trigger] c_cur(n) == c_pre(n) + spec_name_count(names, n) by {}
    assert forall|n: Seq<char>| #[trigger] c_pre(n) >= 0 by {
        lemma_prop_totals_bound(datas, pre, corpus, n);
    }
    lemma_points_step(pts0, pts1, names, c_pre, c_cur);
    assert forall|w: int|
        0 <= w < pts1.len() implies (#[trigger] pts1[w]).1 == spec_perm_total(
        datas,
        cur,
        corpus,
        pts1[w].0@,
    ) && pts1[w].1 >= 1 by {
        assert(pts1[w].1 == c_cur(pts1[w].0@));
    }
    assert forall|n: Seq<char>|
        #[trigger] spec_perm_total(datas, cur, corpus, n) >= 1 implies exists|w: int|
            0 <= w < pts1.len() && (#[trigger] pts1[w]).0@ == n by {
        assert(c_cur(n) == spec_perm_total(datas, cur, corpus, n));
    }
}

/// A condition table stepped by one batch stays exact.
proof fn lemma_cond_points_step(
    pts0: Seq<(String, u32)>,
    pts1: Seq<(String, u32)>,
    names: Seq<String>,
    datas: Seq<FullPluginData>,
    pre: Seq<usize>,
    cur: Seq<usize>,
    corpus: Seq<LicenseData>,
)
    requires
        corpus_capped(corpus),
        cond_points_exact(pts0, datas, pre, corpus),
        forall|n: Seq<char>|
            #[trigger] spec_cond_total(datas, cur, corpus, n) == spec_cond_total(
                datas,
                pre,
                corpus,
                n,
            ) + spec_name_count(names, n),
        pts1.len() >= pts0.len(),
        forall|w: int|
            0 <= w < pts0.len() ==> (#[trigger] pts1[w]).0@ == pts0[w].0@ && pts1[w].1
                == pts0[w].1 + spec_name_count(names, pts0[w].0@),
        forall|w: int|
            pts0.len() <= w < pts1.len() ==> (#[trigger] pts1[w]).1 == spec_name_count(
                names,
                pts1[w].0@,
            ) && spec_name_count(names, pts1[w].0@) >= 1 && !(exists|v: int|
                0 <= v < pts0.len() && (#[trigger] pts0[v]).0@ == pts1[w].0@),
        forall|w: int, v: int|
            0 <= w < v < pts1.len() ==> (#[trigger] pts1[w]).0@ != (#[trigger] pts1[v]).0@,
        forall|n: Seq<char>|
            spec_name_count(names, n) >= 1 ==> exists|w: int|
                0 <= w < pts1.len() && (#[trigger] pts1[w]).0@ == n,
    ensures
        cond_points_exact(pts1, datas, cur, corpus),
{
    let c_pre = (|n: Seq<char>| spec_cond_total(datas, pre, corpus, n));
    let c_cur = (|n: Seq<char>| spec_cond_total(datas, cur, corpus, n));
    assert forall|w: int|
        0 <= w < pts0.len() implies (#[trigger] pts0[w]).1 == c_pre(pts0[w].0@) && pts0[w].1
        >= 1 by {}
    assert forall|n: Seq<char>| #[trigger] c_pre(n) >= 1 implies exists|w: int|
        0 <= w < pts0.len() && (#[trigger] pts0[w]).0@ == n by {}
    assert(points_exact(pts0, c_pre));
    assert forall|n: Seq<char>| #[trigger] c_cur(n) == c_pre(n) + spec_name_count(names, n) by {}
    assert forall|n: Seq<char>| #[trigger] c_pre(n) >= 0 by {
        lemma_prop_totals_bound(datas, pre, corpus, n);
    }
    lemma_points_step(pts0, pts1, names, c_pre, c_cur);
    assert forall|w: int|
        0 <= w < pts1.len() implies (#[trigger] pts1[w]).1 == spec_cond_total(
        datas,
        cur,
        corpus,
        pts1[w].0@,
    ) && pts1[w].1 >= 1 by {
        assert(pts1[w].1 == c_cur(pts1[w].0@));
    }
    assert forall|n: Seq<char>|
        #[trigger] spec_cond_total(datas, cur, corpus, n) >= 1 implies exists|w: int|
            0 <= w < pts1.len() && (#[trigger] pts1[w]).0@ == n by {
        assert(c_cur(n) == spec_cond_total(datas, cur, corpus, n));
    }
}

/// A limitation table stepped by one batch stays exact.
proof fn lemma_lim_points_step(
    pts0: Seq<(String, u32)>,
    pts1: Seq<(String, u32)>,
    names: Seq<String>,
    datas: Seq<FullPluginData>,
    pre: Seq<usize>,
    cur: Seq<usize>,
    corpus: Seq<LicenseData>,
)
    requires
        corpus_capped(corpus),
        lim_points_exact(pts0, datas, pre, corpus),
        forall|n: Seq<char>|
            #[trigger] spec_lim_total(datas, cur, corpus, n) == spec_lim_total(
                datas,
                pre,
                corpus,
                n,
            ) + spec_name_count(names, n),
        pts1.len() >= pts0.len(),
        forall|w: int|
            0 <= w < pts0.len() ==> (#[trigger] pts1[w]).0@ == pts0[w].0@ && pts1[w].1
                == pts0[w].1 + spec_name_count(names, pts0[w].0@),
        forall|w: int|
            pts0.len() <= w < pts1.len() ==> (#[trigger] pts1[w]).1 == spec_name_count(
                names,
                pts1[w].0@,
            ) && spec_name_count(names, pts1[w].0@) >= 1 && !(exists|v: int|
                0 <= v < pts0.len() && (#[trigger] pts0[v]).0@ == pts1[w].0@),
        forall|w: int, v: int|
            0 <= w < v < pts1.len() ==> (#[trigger] pts1[w]).0@ != (#[trigger] pts1[v]).0@,
        forall|n: Seq<char>|
            spec_name_count(names, n) >= 1 ==> exists|w: int|
                0 <= w < pts1.len() && (#[trigger] pts1[w]).0@ == n,
    ensures
        lim_points_exact(pts1, datas, cur, corpus),
{
    let c_pre = (|n: Seq<char>| spec_lim_total(datas, pre, corpus, n));
    let c_cur = (|n: Seq<char>| spec_lim_total(datas, cur, corpus, n));
    assert forall|w: int|
        0 <= w < pts0.len() implies (#[trigger] pts0[w]).1 == c_pre(pts0[w].0@) && pts0[w].1
        >= 1 by {}
    assert forall|n: Seq<char>| #[trigger] c_pre(n) >= 1 implies exists|w: int|
        0 <= w < pts0.len() && (#[trigger] pts0[w]).0@ == n by {}
    assert(points_exact(pts0, c_pre));
    assert forall|n: Seq<char>| #[trigger] c_cur(n) == c_pre(n) + spec_name_count(names, n) by {}
    assert forall|n: Seq<char>| #[trigger] c_pre(n) >= 0 by {
        lemma_prop_totals_bound(datas, pre, corpus, n);
    }
    lemma_points_step(pts0, pts1, names, c_pre, c_cur);
    assert forall|w: int|
        0 <= w < pts1.len() implies (#[trigger] pts1[w]).1 == spec_lim_total(
        datas,
        cur,
        corpus,
        pts1[w].0@,
    ) && pts1[w].1 >= 1 by {
        assert(pts1[w].1 == c_cur(pts1[w].0@));
    }
    assert forall|n: Seq<char>|
        #[trigger] spec_lim_total(datas, cur, corpus, n) >= 1 implies exists|w: int|
            0 <= w < pts1.len() && (#[trigger] pts1[w]).0@ == n by {
        assert(c_cur(n) == spec_lim_total(datas, cur, corpus, n));
    }
}

/// The row of the name, if the table has one.
fn bucket_index(points: &Vec<(String, u32)>, name: &str) -> (r: Option<usize>)
    ensures
        match r {
            Option::Some(w) => w < points@.len() && points@[w as int].0@ == name@,
            Option::None => forall|w: int|
                0 <= w < points@.len() ==> (#[trigger] points@[w]).0@ != name@,
        },
{
    let mut w: usize = 0;
    while w < points.len()
        invariant
            w <= points@.len(),
            forall|v: int| 0 <= v < w ==> (#[trigger] points@[v]).0@ != name@,
        decreases points@.len() - w,
    {
        if crate::digits::str_eq(points[w].0.as_str(), name) {
            return Some(w);
        }
        w = w + 1;
    }
    None
}

/// Adds one to each named bucket, in list order, opening absent buckets at
/// one.
fn bump_all(points: &mut Vec<(String, u32)>, names: &Vec<String>)
    requires
        forall|w: int, v: int|
            0 <= w < v < old(points)@.len() ==> (#[trigger] old(points)@[w]).0@ != (
            #[trigger] old(points)@[v]).0@,
        forall|w: int|
            0 <= w < old(points)@.len() ==> (#[trigger] old(points)@[w]).1 + names@.len()
                <= u32::MAX,
        names@.len() <= u32::MAX,
    ensures
        final(points)@.len() >= old(points)@.len(),
        forall|w: int|
            0 <= w < old(points)@.len() ==> (#[trigger] final(points)@[w]).0@
                == old(points)@[w].0@ && final(points)@[w].1 == old(points)@[w].1
                + spec_name_count(names@, old(points)@[w].0@),
        forall|w: int|
            old(points)@.len() <= w < final(points)@.len() ==> (#[trigger] final(points)@[w]).1
                == spec_name_count(names@, final(points)@[w].0@) && spec_name_count(
                names@,
                final(points)@[w].0@,
            ) >= 1 && !(exists|v: int|
                0 <= v < old(points)@.len() && (#[trigger] old(points)@[v]).0@
                    == final(points)@[w].0@),
        forall|w: int, v: int|
            0 <= w < v < final(points)@.len() ==> (#[trigger] final(points)@[w]).0@ != (
            #[trigger] final(points)@[v]).0@,
        forall|n: Seq<char>|
            spec_name_count(names@, n) >= 1 ==> exists|w: int|
                0 <= w < final(points)@.len() && (#[trigger] final(points)@[w]).0@ == n,
{
    let ghost pts0 = points@;
    let mut k: usize = 0;
    proof {
        assert(names@.subrange(0, 0) =~= Seq::<String>::empty());
    }
    while k < names.len()
        invariant
            k <= names@.len(),
            names@.len() <= u32::MAX,
            forall|w: int, v: int|
                0 <= w < v < pts0.len() ==> (#[trigger] pts0[w]).0@ != (#[trigger] pts0[v]).0@,
            forall|w: int| 0 <= w < pts0.len() ==> (#[trigger] pts0[w]).1 + names@.len()
                <= u32::MAX,
            points@.len() >= pts0.len(),
            forall|w: int|
                0 <= w < pts0.len() ==> (#[trigger] points@[w]).0@ == pts0[w].0@ && points@[w].1
                    == pts0[w].1 + spec_name_count(names@.subrange(0, k as int), pts0[w].0@),
            forall|w: int|
                pts0.len() <= w < points@.len() ==> (#[trigger] points@[w]).1
                    == spec_name_count(names@.subrange(0, k as int), points@[w].0@)
                    && spec_name_count(names@.subrange(0, k as int), points@[w].0@) >= 1 && !(
                exists|v: int| 0 <= v < pts0.len() && (#[trigger] pts0[v]).0@ == points@[w].0@),
            forall|w: int, v: int|
                0 <= w < v < points@.len() ==> (#[trigger] points@[w]).0@ != (
                #[trigger] points@[v]).0@,
            forall|n: Seq<char>|
                spec_name_count(names@.subrange(0, k as int), n) >= 1 ==> exists|w: int|
                    0 <= w < points@.len() && (#[trigger] points@[w]).0@ == n,
        decreases names@.len() - k,
    {
        let ghost pre_names = names@.subrange(0, k as int);
        let ghost cur_names = names@.subrange(0, k + 1);
        let ghost before = points@;
        let ghost sk: Seq<char> = names@[k as int]@;
        proof {
            assert(cur_names.drop_last() =~= pre_names);
            assert(cur_names.last() == names@[k as int]);
            lemma_name_count_le(pre_names, sk);
            // the entry state, named
            assert(forall|w: int|
                0 <= w < pts0.len() ==> (#[trigger] before[w]).0@ == pts0[w].0@ && before[w].1
                    == pts0[w].1 + spec_name_count(pre_names, pts0[w].0@));
            assert(forall|w: int|
                pts0.len() <= w < before.len() ==> (#[trigger] before[w]).1 == spec_name_count(
                    pre_names,
                    before[w].0@,
                ) && spec_name_count(pre_names, before[w].0@) >= 1 && !(exists|v: int|
                    0 <= v < pts0.len() && (#[trigger] pts0[v]).0@ == before[w].0@));
            assert(forall|w: int, v: int|
                0 <= w < v < before.len() ==> (#[trigger] before[w]).0@ != (
                #[trigger] before[v]).0@);
            assert(forall|n: Seq<char>|
                spec_name_count(pre_names, n) >= 1 ==> exists|w: int|
                    0 <= w < before.len() && (#[trigger] before[w]).0@ == n);
            assert forall|n: Seq<char>| #[trigger]
                spec_name_count(cur_names, n) == spec_name_count(pre_names, n) + (if sk == n {
                    1int
                } else {
                    0int
                }) by {}
        }
        let s = &names[k];
        match bucket_index(points, s.as_str()) {
            Option::Some(w0) => {
                let cnt = points[w0].1;
                let nm = points[w0].0.clone();
                proof {
                    // the found bucket's count is below the cap
                    lemma_name_count_le(pre_names, before[w0 as int].0@);
                    if w0 < pts0.len() {
                        assert(before[w0 as int].1 == pts0[w0 as int].1 + spec_name_count(
                            pre_names,
                            pts0[w0 as int].0@,
                        ));
                    } else {
                        assert(before[w0 as int].1 == spec_name_count(
                            pre_names,
                            before[w0 as int].0@,
                        ));
                    }
                }
                points.set(w0, (nm, cnt + 1));
                proof {
                    assert(points@[w0 as int].0@ == before[w0 as int].0@);
                    assert(points@[w0 as int].1 == before[w0 as int].1 + 1);
                    assert(forall|w: int|
                        0 <= w < points@.len() && w != w0 ==> points@[w] == #[trigger] before[w]);
                    assert(before[w0 as int].0@ == sk);
                    // no other bucket carries this name
                    assert(forall|w: int|
                        0 <= w < points@.len() && w != w0 ==> (#[trigger] points@[w]).0@ != sk);
                    assert forall|w: int|
                        0 <= w < pts0.len() implies (#[trigger] points@[w]).0@ == pts0[w].0@
                        && points@[w].1 == pts0[w].1 + spec_name_count(
                        cur_names,
                        pts0[w].0@,
                    ) by {
                        lemma_name_count_le(pre_names, pts0[w].0@);
                        if w == w0 {
                            assert(pts0[w].0@ == sk);
                        } else {
                            assert(points@[w] == before[w]);
                            assert(points@[w].0@ != sk);
                        }
                    }
                    assert forall|w: int|
                        pts0.len() <= w < points@.len() implies (#[trigger] points@[w]).1
                        == spec_name_count(cur_names, points@[w].0@) && spec_name_count(
                        cur_names,
                        points@[w].0@,
                    ) >= 1 && !(exists|v: int|
                        0 <= v < pts0.len() && (#[trigger] pts0[v]).0@ == points@[w].0@) by {
                        lemma_name_count_le(pre_names, before[w].0@);
                        if w == w0 {
                            assert(points@[w].0@ == sk);
                            assert(before[w].1 == spec_name_count(pre_names, before[w].0@));
                        } else {
                            assert(points@[w] == before[w]);
                            assert(points@[w].0@ != sk);
                            assert(before[w].1 == spec_name_count(pre_names, before[w].0@));
                        }
                    }
                    assert forall|n: Seq<char>|
                        spec_name_count(cur_names, n) >= 1 implies exists|w: int|
                            0 <= w < points@.len() && (#[trigger] points@[w]).0@ == n by {
                        if spec_name_count(pre_names, n) >= 1 {
                            let w = choose|w: int|
                                0 <= w < before.len() && (#[trigger] before[w]).0@ == n;
                            assert(points@[w].0@ == n);
                        } else {
                            assert(n == sk);
                            assert(points@[w0 as int].0@ == n);
                        }
                    }
                }
            },
            Option::None => {
                proof {
                    // the name has no bucket, so its running count is zero
                    if spec_name_count(pre_names, sk) >= 1 {
                        let w = choose|w: int|
                            0 <= w < before.len() && (#[trigger] before[w]).0@ == sk;
                        assert(false);
                    }
                }
                points.push((s.clone(), 1));
                proof {
                    assert(points@[before.len() as int].0@ == sk);
                    assert(points@[before.len() as int].1 == 1);
                    assert(forall|w: int|
                        0 <= w < before.len() ==> points@[w] == #[trigger] before[w]);
                    assert(forall|w: int|
                        0 <= w < before.len() ==> (#[trigger] before[w]).0@ != sk);
                    assert forall|w: int|
                        0 <= w < pts0.len() implies (#[trigger] points@[w]).0@ == pts0[w].0@
                        && points@[w].1 == pts0[w].1 + spec_name_count(
                        cur_names,
                        pts0[w].0@,
                    ) by {
                        lemma_name_count_le(pre_names, pts0[w].0@);
                        assert(points@[w] == before[w]);
                        assert(before[w].0@ != sk);
                    }
                    assert forall|w: int|
                        pts0.len() <= w < points@.len() implies (#[trigger] points@[w]).1
                        == spec_name_count(cur_names, points@[w].0@) && spec_name_count(
                        cur_names,
                        points@[w].0@,
                    ) >= 1 && !(exists|v: int|
                        0 <= v < pts0.len() && (#[trigger] pts0[v]).0@ == points@[w].0@) by {
                        if w < before.len() {
                            assert(points@[w] == before[w]);
                            assert(before[w].0@ != sk);
                            assert(before[w].1 == spec_name_count(pre_names, before[w].0@));
                        } else {
                            assert(points@[w].0@ == sk);
                            assert(spec_name_count(cur_names, points@[w].0@) == 1);
                            if exists|v: int|
                                0 <= v < pts0.len() && (#[trigger] pts0[v]).0@ == points@[w].0@ {
                                let v = choose|v: int|
                                    0 <= v < pts0.len() && (#[trigger] pts0[v]).0@
                                        == points@[w].0@;
                                assert(before[v].0@ == pts0[v].0@);
                                assert(false);
                            }
                        }
                    }
                    assert forall|w: int, v: int|
                        0 <= w < v < points@.len() implies (#[trigger] points@[w]).0@ != (
                    #[trigger] points@[v]).0@ by {
                        if v == before.len() as int {
                            assert(points@[w] == before[w]);
                            assert(before[w].0@ != sk);
                        } else {
                            assert(points@[w] == before[w]);
                            assert(points@[v] == before[v]);
                        }
                    }
                    assert forall|n: Seq<char>|
                        spec_name_count(cur_names, n) >= 1 implies exists|w: int|
                            0 <= w < points@.len() && (#[trigger] points@[w]).0@ == n by {
                        if spec_name_count(pre_names, n) >= 1 {
                            let w = choose|w: int|
                                0 <= w < before.len() && (#[trigger] before[w]).0@ == n;
                            assert(points@[w].0@ == n);
                        } else {
                            assert(n == sk);
                            assert(points@[before.len() as int].0@ == n);
                        }
                    }
                }
            },
        }
        k = k + 1;
    }
    proof {
        assert(names@.subrange(0, names@.len() as int) =~= names@);
    }
}

/// The index of the first corpus entry with this identifier.
fn find_license_entry(corpus: &Vec<LicenseData>, name: &str) -> (r: Option<usize>)
    ensures
        match r {
            Option::Some(idx) => idx < corpus@.len() && corpus@[idx as int].spdx_id@ == name@
                && spec_corpus_entry(corpus@, name@) == Option::Some(corpus@[idx as int]),
            Option::None => spec_corpus_entry(corpus@, name@) is None,
        },
{
    let mut i: usize = 0;
    proof {
        assert(corpus@.skip(0) =~= corpus@);
    }
    while i < corpus.len()
        invariant
            i <= corpus@.len(),
            spec_corpus_entry(corpus@, name@) == spec_corpus_entry(
                corpus@.skip(i as int),
                name@,
            ),
        decreases corpus@.len() - i,
    {
        proof {
            assert(corpus@.skip(i as int)[0] == corpus@[i as int]);
            assert(corpus@.skip(i as int).skip(1) =~= corpus@.skip(i + 1));
        }
        if crate::digits::str_eq(corpus[i].spdx_id.as_str(), name) {
            return Some(i);
        }
        i = i + 1;
    }
    proof {
        assert(corpus@.skip(corpus@.len() as int) =~= Seq::<LicenseData>::empty());
    }
    None
}

impl PluginDataArrayView {
    /// The license breakdown over the view's scanned repositories: per
    /// license label, per permission, per condition and per limitation of
    /// the corpus, how often it occurs, with the corpus's display
    /// descriptions carried along. A scan whose license the corpus knows
    /// counts under that identifier and contributes its entry's property
    /// lists; a known license the corpus lacks counts as unrecognized; any
    /// other finding counts under its printed form.
    pub fn license_data_points(&self, data: &PluginDataArray, licenses: &Licenses) -> (r:
        PluginLicenseDataPoints)
        requires
            view_wf(self.indices@, data.data@),
            self.indices@.len() <= 1_000_000,
            corpus_capped(licenses.licenses@),
        ensures
            label_points_exact(r.licenses@, data.data@, self.indices@, licenses.licenses@),
            perm_points_exact(r.permissions@, data.data@, self.indices@, licenses.licenses@),
            cond_points_exact(r.conditions@, data.data@, self.indices@, licenses.licenses@),
            lim_points_exact(r.limitations@, data.data@, self.indices@, licenses.licenses@),
            descs_eq(r.descriptions, licenses.descriptions),
    {
        let ghost datas = data.data@;
        let ghost idxs = self.indices@;
        let ghost corpus = licenses.licenses@;
        let mut lic: Vec<(String, u32)> = Vec::new();
        let mut perm: Vec<(String, u32)> = Vec::new();
        let mut cond: Vec<(String, u32)> = Vec::new();
        let mut lim: Vec<(String, u32)> = Vec::new();
        let mut i: usize = 0;
        proof {
            assert(idxs.subrange(0, 0) =~= Seq::<usize>::empty());
        }
        while i < self.indices.len()
            invariant
                i <= idxs.len(),
                idxs == self.indices@,
                datas == data.data@,
                corpus == licenses.licenses@,
                view_wf(idxs, datas),
                idxs.len() <= 1_000_000,
                corpus_capped(corpus),
                label_points_exact(lic@, datas, idxs.subrange(0, i as int), corpus),
                perm_points_exact(perm@, datas, idxs.subrange(0, i as int), corpus),
                cond_points_exact(cond@, datas, idxs.subrange(0, i as int), corpus),
                lim_points_exact(lim@, datas, idxs.subrange(0, i as int), corpus),
            decreases idxs.len() - i,
        {
            let ghost pre = idxs.subrange(0, i as int);
            let ghost cur = idxs.subrange(0, i + 1);
            let ghost enames = Seq::<String>::empty();
            proof {
                assert(cur.drop_last() =~= pre);
                assert(cur.last() == idxs[i as int]);
                assert(pre.len() <= 1_000_000);
                assert forall|n: Seq<char>| #[trigger] spec_name_count(enames, n) == 0 by {}
            }
            let item = &data.data[self.indices[i]];
            match item.repo_data() {
                Option::Some(repo) => {
                    let ghost rep = *repo;
                    proof {
                        assert(spec_repo_of(datas[idxs[i as int] as int]) == Option::Some(rep));
                    }
                    match &repo.file_license {
                        LicenseInfo::Known(name) => {
                            match find_license_entry(&licenses.licenses, name.as_str()) {
                                Option::Some(ldx) => {
                                    let ld = &licenses.licenses[ldx];
                                    let mut one: Vec<String> = Vec::new();
                                    one.push(ld.spdx_id.clone());
                                    let ghost lic0 = lic@;
                                    proof {
                                        assert(one@.drop_last() =~= Seq::<String>::empty());
                                        assert(one@[0]@ == corpus[ldx as int].spdx_id@);
                                        assert(spec_license_label(corpus, rep.file_license)
                                            == name@);
                                        assert(one@[0]@ == name@);
                                        assert forall|w: int|
                                            0 <= w < lic@.len() implies (#[trigger] lic@[w]).1
                                            + one@.len() <= u32::MAX by {
                                            lemma_label_count_bound(
                                                datas,
                                                pre,
                                                corpus,
                                                lic@[w].0@,
                                            );
                                        }
                                    }
                                    bump_all(&mut lic, &one);
                                    proof {
                                        assert forall|n: Seq<char>| #[trigger]
                                            spec_label_count(datas, cur, corpus, n)
                                                == spec_label_count(datas, pre, corpus, n)
                                                + spec_name_count(one@, n) by {
                                            assert(one@.drop_last() =~= Seq::<
                                                String,
                                            >::empty());
                                            assert(spec_name_count(
                                                Seq::<String>::empty(),
                                                n,
                                            ) == 0);
                                            assert(one@.last() == one@[0]);
                                            assert(spec_name_count(one@, n) == (if one@[0]@
                                                == n {
                                                1int
                                            } else {
                                                0int
                                            }));
                                        }
                                        lemma_label_points_step(
                                            lic0,
                                            lic@,
                                            one@,
                                            datas,
                                            pre,
                                            cur,
                                            corpus,
                                        );
                                    }
                                    let ghost perm0 = perm@;
                                    proof {
                                        assert forall|w: int|
                                            0 <= w < perm@.len() implies (#[trigger] perm@[w]).1
                                            + ld.permissions@.len() <= u32::MAX by {
                                            lemma_prop_totals_bound(
                                                datas,
                                                pre,
                                                corpus,
                                                perm@[w].0@,
                                            );
                                        }
                                    }
                                    bump_all(&mut perm, &ld.permissions);
                                    proof {
                                        assert forall|n: Seq<char>| #[trigger]
                                            spec_perm_total(datas, cur, corpus, n)
                                                == spec_perm_total(datas, pre, corpus, n)
                                                + spec_name_count(ld.permissions@, n) by {
                                            assert(spec_perm_weight(corpus, rep.file_license, n)
                                                == spec_name_count(
                                                corpus[ldx as int].permissions@,
                                                n,
                                            ));
                                        }
                                        lemma_perm_points_step(
                                            perm0,
                                            perm@,
                                            ld.permissions@,
                                            datas,
                                            pre,
                                            cur,
                                            corpus,
                                        );
                                    }
                                    let ghost cond0 = cond@;
                                    proof {
                                        assert forall|w: int|
                                            0 <= w < cond@.len() implies (#[trigger] cond@[w]).1
                                            + ld.conditions@.len() <= u32::MAX by {
                                            lemma_prop_totals_bound(
                                                datas,
                                                pre,
                                                corpus,
                                                cond@[w].0@,
                                            );
                                        }
                                    }
                                    bump_all(&mut cond, &ld.conditions);
                                    proof {
                                        assert forall|n: Seq<char>| #[trigger]
                                            spec_cond_total(datas, cur, corpus, n)
                                                == spec_cond_total(datas, pre, corpus, n)
                                                + spec_name_count(ld.conditions@, n) by {
                                            assert(spec_cond_weight(corpus, rep.file_license, n)
                                                == spec_name_count(
                                                corpus[ldx as int].conditions@,
                                                n,
                                            ));
                                        }
                                        lemma_cond_points_step(
                                            cond0,
                                            cond@,
                                            ld.conditions@,
                                            datas,
                                            pre,
                                            cur,
                                            corpus,
                                        );
                                    }
                                    let ghost lim0 = lim@;
                                    proof {
                                        assert forall|w: int|
                                            0 <= w < lim@.len() implies (#[trigger] lim@[w]).1
                                            + ld.limitations@.len() <= u32::MAX by {
                                            lemma_prop_totals_bound(
                                                datas,
                                                pre,
                                                corpus,
                                                lim@[w].0@,
                                            );
                                        }
                                    }
                                    bump_all(&mut lim, &ld.limitations);
                                    proof {
                                        assert forall|n: Seq<char>| #[trigger]
                                            spec_lim_total(datas, cur, corpus, n)
                                                == spec_lim_total(datas, pre, corpus, n)
                                                + spec_name_count(ld.limitations@, n) by {
                                            assert(spec_lim_weight(corpus, rep.file_license, n)
                                                == spec_name_count(
                                                corpus[ldx as int].limitations@,
                                                n,
                                            ));
                                        }
                                        lemma_lim_points_step(
                                            lim0,
                                            lim@,
                                            ld.limitations@,
                                            datas,
                                            pre,
                                            cur,
                                            corpus,
                                        );
                                    }
                                },
                                Option::None => {
                                    let u = LicenseInfo::Unrecognized;
                                    let mut one: Vec<String> = Vec::new();
                                    one.push(u.to_fancy_string());
                                    let ghost lic0 = lic@;
                                    proof {
                                        assert(one@.drop_last() =~= Seq::<String>::empty());
                                        assert(spec_license_label(corpus, rep.file_license)
                                            == spec_license_string(LicenseInfo::Unrecognized));
                                        assert(one@[0]@ == spec_license_string(
                                            LicenseInfo::Unrecognized,
                                        ));
                                        assert forall|w: int|
                                            0 <= w < lic@.len() implies (#[trigger] lic@[w]).1
                                            + one@.len() <= u32::MAX by {
                                            lemma_label_count_bound(
                                                datas,
                                                pre,
                                                corpus,
                                                lic@[w].0@,
                                            );
                                        }
                                    }
                                    bump_all(&mut lic, &one);
                                    proof {
                                        assert forall|n: Seq<char>| #[trigger]
                                            spec_label_count(datas, cur, corpus, n)
                                                == spec_label_count(datas, pre, corpus, n)
                                                + spec_name_count(one@, n) by {
                                            assert(one@.drop_last() =~= Seq::<
                                                String,
                                            >::empty());
                                            assert(spec_name_count(
                                                Seq::<String>::empty(),
                                                n,
                                            ) == 0);
                                            assert(one@.last() == one@[0]);
                                            assert(spec_name_count(one@, n) == (if one@[0]@
                                                == n {
                                                1int
                                            } else {
                                                0int
                                            }));
                                        }
                                        lemma_label_points_step(
                                            lic0,
                                            lic@,
                                            one@,
                                            datas,
                                            pre,
                                            cur,
                                            corpus,
                                        );
                                        // the corpus lacks the entry, so the
                                        // property totals stand still
                                        assert forall|n: Seq<char>| #[trigger]
                                            spec_perm_total(datas, cur, corpus, n)
                                                == spec_perm_total(datas, pre, corpus, n)
                                                + spec_name_count(enames, n) by {
                                            assert(spec_perm_weight(corpus, rep.file_license, n)
                                                == 0);
                                        }
                                        assert forall|n: Seq<char>| #[trigger]
                                            spec_cond_total(datas, cur, corpus, n)
                                                == spec_cond_total(datas, pre, corpus, n)
                                                + spec_name_count(enames, n) by {
                                            assert(spec_cond_weight(corpus, rep.file_license, n)
                                                == 0);
                                        }
                                        assert forall|n: Seq<char>| #[trigger]
                                            spec_lim_total(datas, cur, corpus, n)
                                                == spec_lim_total(datas, pre, corpus, n)
                                                + spec_name_count(enames, n) by {
                                            assert(spec_lim_weight(corpus, rep.file_license, n)
                                                == 0);
                                        }
                                        lemma_perm_points_step(
                                            perm@,
                                            perm@,
                                            enames,
                                            datas,
                                            pre,
                                            cur,
                                            corpus,
                                        );
                                        lemma_cond_points_step(
                                            cond@,
                                            cond@,
                                            enames,
                                            datas,
                                            pre,
                                            cur,
                                            corpus,
                                        );
                                        lemma_lim_points_step(
                                            lim@,
                                            lim@,
                                            enames,
                                            datas,
                                            pre,
                                            cur,
                                            corpus,
                                        );
                                    }
                                },
                            }
                        },
                        other => {
                            let mut one: Vec<String> = Vec::new();
                            one.push(other.to_fancy_string());
                            let ghost lic0 = lic@;
                            proof {
                                assert(one@.drop_last() =~= Seq::<String>::empty());
                                assert(spec_license_label(corpus, rep.file_license)
                                    == spec_license_string(rep.file_license));
                                assert(one@[0]@ == spec_license_string(rep.file_license));
                                assert forall|w: int|
                                    0 <= w < lic@.len() implies (#[trigger] lic@[w]).1
                                    + one@.len() <= u32::MAX by {
                                    lemma_label_count_bound(datas, pre, corpus, lic@[w].0@);
                                }
                            }
                            bump_all(&mut lic, &one);
                            proof {
                                assert forall|n: Seq<char>| #[trigger]
                                    spec_label_count(datas, cur, corpus, n) == spec_label_count(
                                        datas,
                                        pre,
                                        corpus,
                                        n,
                                    ) + spec_name_count(one@, n) by {
                                    assert(one@.drop_last() =~= Seq::<String>::empty());
                                    assert(spec_name_count(Seq::<String>::empty(), n) == 0);
                                    assert(one@.last() == one@[0]);
                                    assert(spec_name_count(one@, n) == (if one@[0]@ == n {
                                        1int
                                    } else {
                                        0int
                                    }));
                                }
                                lemma_label_points_step(
                                    lic0,
                                    lic@,
                                    one@,
                                    datas,
                                    pre,
                                    cur,
                                    corpus,
                                );
                                // a finding without a known name carries no
                                // corpus entry, so the property totals stand
                                // still
                                assert forall|n: Seq<char>| #[trigger]
                                    spec_perm_total(datas, cur, corpus, n) == spec_perm_total(
                                        datas,
                                        pre,
                                        corpus,
                                        n,
                                    ) + spec_name_count(enames, n) by {
                                    assert(spec_perm_weight(corpus, rep.file_license, n) == 0);
                                }
                                assert forall|n: Seq<char>| #[trigger]
                                    spec_cond_total(datas, cur, corpus, n) == spec_cond_total(
                                        datas,
                                        pre,
                                        corpus,
                                        n,
                                    ) + spec_name_count(enames, n) by {
                                    assert(spec_cond_weight(corpus, rep.file_license, n) == 0);
                                }
                                assert forall|n: Seq<char>| #[trigger]
                                    spec_lim_total(datas, cur, corpus, n) == spec_lim_total(
                                        datas,
                                        pre,
                                        corpus,
                                        n,
                                    ) + spec_name_count(enames, n) by {
                                    assert(spec_lim_weight(corpus, rep.file_license, n) == 0);
                                }
                                lemma_perm_points_step(
                                    perm@,
                                    perm@,
                                    enames,
                                    datas,
                                    pre,
                                    cur,
                                    corpus,
                                );
                                lemma_cond_points_step(
                                    cond@,
                                    cond@,
                                    enames,
                                    datas,
                                    pre,
                                    cur,
                                    corpus,
                                );
                                lemma_lim_points_step(
                                    lim@,
                                    lim@,
                                    enames,
                                    datas,
                                    pre,
                                    cur,
                                    corpus,
                                );
                            }
                        },
                    }
                },
                Option::None => {
                    proof {
                        // no successful scan: every count stands still
                        assert(spec_repo_of(datas[idxs[i as int] as int]) is None);
                        assert forall|n: Seq<char>| #[trigger]
                            spec_label_count(datas, cur, corpus, n) == spec_label_count(
                                datas,
                                pre,
                                corpus,
                                n,
                            ) + spec_name_count(enames, n) by {}
                        assert forall|n: Seq<char>| #[trigger]
                            spec_perm_total(datas, cur, corpus, n) == spec_perm_total(
                                datas,
                                pre,
                                corpus,
                                n,
                            ) + spec_name_count(enames, n) by {}
                        assert forall|n: Seq<char>| #[trigger]
                            spec_cond_total(datas, cur, corpus, n) == spec_cond_total(
                                datas,
                                pre,
                                corpus,
                                n,
                            ) + spec_name_count(enames, n) by {}
                        assert forall|n: Seq<char>| #[trigger]
                            spec_lim_total(datas, cur, corpus, n) == spec_lim_total(
                                datas,
                                pre,
                                corpus,
                                n,
                            ) + spec_name_count(enames, n) by {}
                        lemma_label_points_step(lic@, lic@, enames, datas, pre, cur, corpus);
                        lemma_perm_points_step(perm@, perm@, enames, datas, pre, cur, corpus);
                        lemma_cond_points_step(cond@, cond@, enames, datas, pre, cur, corpus);
                        lemma_lim_points_step(lim@, lim@, enames, datas, pre, cur, corpus);
                    }
                },
            }
            i = i + 1;
        }
        proof {
            assert(idxs.subrange(0, idxs.len() as int) =~= idxs);
        }
        PluginLicenseDataPoints {
            licenses: lic,
            permissions: perm,
            conditions: cond,
            limitations: lim,
            descriptions: clone_descriptions(&licenses.descriptions),
        }
    }
}

/// Whether any string of the list reads as `v`.
pub open spec fn spec_string_list_contains(list: Seq<String>, v: Seq<char>) -> bool {
    exists|i: int| 0 <= i < list.len() && (#[trigger] list[i])@ == v
}

fn string_list_contains(list: &Vec<String>, v: &str) -> (r: bool)
    ensures
        r == spec_string_list_contains(list@, v@),
{
    let mut i: usize = 0;
    while i < list.len()
        invariant
            i <= list@.len(),
            forall|j: int| 0 <= j < i ==> (#[trigger] list@[j])@ != v@,
        decreases list@.len() - i,
    {
        if crate::digits::str_eq(list[i].as_str(), v) {
            return true;
        }
        i = i + 1;
    }
    false
}

} // verus!
