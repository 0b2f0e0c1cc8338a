//! The download and version-history accumulator.
//!
//! A second ordered sequence of snapshots — raw per-entity download counts
//! and active version identifiers — is folded into the lifecycle records:
//! the sparse download series, the running maximum download count, and the
//! first-seen date of every version, first observation winning. At the end
//! the version history is sorted by parsed version order.

use vstd::prelude::*;

use crate::commit::Commit;
use crate::common::{DownloadRecord, VersionHistory};
use crate::date::{day_index, valid_date, Date};
use crate::digits::str_eq;
use crate::plugin::{vh_view, PluginData};
use crate::version::{spec_parse_version, spec_pre_view, spec_version_lt, Version};

verus! {

/// The raw observation for one entity at one snapshot: its total download
/// count and the version identifiers active at that time.
#[derive(Debug, Clone)]
pub struct PluginDownloadStat {
    pub downloads: u32,
    pub versions: Vec<String>,
}

/// One snapshot of the download statistics, tied to its commit.
#[derive(Debug)]
pub struct PluginDownloadStats {
    pub entries: Vec<(String, PluginDownloadStat)>,
    pub commit: Commit,
}

/// The first stat recorded under this id, if any.
pub open spec fn spec_find_stat(s: Seq<(String, PluginDownloadStat)>, id: Seq<char>) -> Option<
    PluginDownloadStat,
>
    decreases s.len(),
{
    if s.len() == 0 {
        Option::None
    } else if s[0].0@ == id {
        Option::Some(s[0].1)
    } else {
        spec_find_stat(s.skip(1), id)
    }
}

impl PluginDownloadStats {
    /// The snapshot's observation date.
    pub fn get_date(&self) -> (r: Date)
        ensures
            r == self.commit.date,
    {
        self.commit.date
    }

    /// The stat recorded under this id.
    pub fn find(&self, id: &str) -> (r: Option<&PluginDownloadStat>)
        ensures
            match r {
                Option::Some(st) => spec_find_stat(self.entries@, id@) == Option::Some(*st),
                Option::None => spec_find_stat(self.entries@, id@) is None,
            },
    {
        let ghost s = self.entries@;
        let mut i: usize = 0;
        proof {
            assert(s.skip(0) =~= s);
        }
        while i < self.entries.len()
            invariant
                i <= s.len(),
                s == self.entries@,
                spec_find_stat(s, id@) == spec_find_stat(s.skip(i as int), id@),
            decreases s.len() - i,
        {
            proof {
                assert(s.skip(i as int)[0] == s[i as int]);
                assert(s.skip(i as int).skip(1) =~= s.skip(i + 1));
            }
            if str_eq(self.entries[i].0.as_str(), id) {
                return Some(&self.entries[i].1);
            }
            i = i + 1;
        }
        proof {
            assert(s.skip(s.len() as int) =~= Seq::<(String, PluginDownloadStat)>::empty());
        }
        None
    }
}

/// The version strings already on record.
pub open spec fn vh_strings(h: Seq<VersionHistory>) -> Seq<Seq<char>> {
    h.map_values(|v: VersionHistory| v.version@)
}

/// Which versions a stat snapshot adds: those that parse, are not yet on
/// record, and were not already added earlier in the same snapshot — the
/// first observation wins.
pub open spec fn spec_new_versions(
    existing: Seq<Seq<char>>,
    vs: Seq<Seq<char>>,
    d: Date,
) -> Seq<(Seq<char>, Date)>
    decreases vs.len(),
{
    if vs.len() == 0 {
        Seq::empty()
    } else {
        let prior = spec_new_versions(existing, vs.drop_last(), d);
        prior + (if (spec_parse_version(vs.last()) is Some) && !existing.contains(vs.last())
            && !prior.map_values(|p: (Seq<char>, Date)| p.0).contains(vs.last()) {
            seq![(vs.last(), d)]
        } else {
            Seq::<(Seq<char>, Date)>::empty()
        })
    }
}

/// The stored parse result agrees with the grammar on the stored text.
pub open spec fn version_object_ok(vh: VersionHistory) -> bool {
    match vh.version_object {
        Option::Some(v) => spec_parse_version(vh.version@) == Option::Some(
            (v.major as int, v.minor as int, v.patch as int, spec_pre_view(v.pre_release)),
        ),
        Option::None => spec_parse_version(vh.version@) is None,
    }
}

/// Whether a version string is already on record.
fn contains_version(h: &Vec<VersionHistory>, v: &str) -> (r: bool)
    ensures
        r == vh_strings(h@).contains(v@),
{
    let mut i: usize = 0;
    while i < h.len()
        invariant
            i <= h@.len(),
            forall|j: int| 0 <= j < i ==> vh_strings(h@)[j] != v@,
        decreases h@.len() - i,
    {
        if str_eq(h[i].version.as_str(), v) {
            proof {
                assert(vh_strings(h@)[i as int] == v@);
            }
            return true;
        }
        i = i + 1;
    }
    false
}

/// Ordering on parsed versions for the history sort: an absent parse sorts
/// first, present ones by the version order.
pub open spec fn spec_opt_version_le(a: Option<Version>, b: Option<Version>) -> bool {
    match (a, b) {
        (Option::None, _) => true,
        (Option::Some(_), Option::None) => false,
        (Option::Some(x), Option::Some(y)) => !spec_version_lt(y, x),
    }
}

pub open spec fn spec_vh_le(a: VersionHistory, b: VersionHistory) -> bool {
    spec_opt_version_le(a.version_object, b.version_object)
}

/// The character order is asymmetric.
proof fn lemma_chars_lt_asym(a: Seq<char>, b: Seq<char>)
    requires
        crate::version::spec_chars_lt(a, b),
    ensures
        !crate::version::spec_chars_lt(b, a),
    decreases a.len(),
{
    if b.len() > 0 && a.len() > 0 && a[0] == b[0] {
        lemma_chars_lt_asym(a.skip(1), b.skip(1));
    }
}

/// The character order is transitive.
proof fn lemma_chars_lt_trans(a: Seq<char>, b: Seq<char>, c: Seq<char>)
    requires
        crate::version::spec_chars_lt(a, b),
        crate::version::spec_chars_lt(b, c),
    ensures
        crate::version::spec_chars_lt(a, c),
    decreases a.len(),
{
    if a.len() > 0 && b.len() > 0 && a[0] == b[0] && c.len() > 0 && b[0] == c[0] {
        lemma_chars_lt_trans(a.skip(1), b.skip(1), c.skip(1));
    }
}

/// The version order is asymmetric, so [`spec_opt_version_le`] is total.
pub proof fn lemma_version_le_total(a: Option<Version>, b: Option<Version>)
    ensures
        spec_opt_version_le(a, b) || spec_opt_version_le(b, a),
{
    if a is Some && b is Some {
        let x = a->0;
        let y = b->0;
        if spec_version_lt(x, y) && spec_version_lt(y, x) {
            match (spec_pre_view(x.pre_release), spec_pre_view(y.pre_release)) {
                (Option::Some(p), Option::Some(q)) => {
                    lemma_chars_lt_asym(p, q);
                },
                _ => {},
            }
        }
    }
}

/// Distinct characters have distinct code points.
proof fn lemma_char_code_injective(c1: char, c2: char)
    requires
        c1 != c2,
    ensures
        c1 as u32 != c2 as u32,
{
}

/// Two character sequences compare one way or the other, or are equal.
proof fn lemma_chars_lt_connected(a: Seq<char>, b: Seq<char>)
    ensures
        crate::version::spec_chars_lt(a, b) || crate::version::spec_chars_lt(b, a) || a == b,
    decreases a.len(),
{
    if a.len() == 0 && b.len() == 0 {
        assert(a =~= b);
    } else if a.len() > 0 && b.len() > 0 && a[0] == b[0] {
        lemma_chars_lt_connected(a.skip(1), b.skip(1));
        if a.skip(1) == b.skip(1) {
            assert(a =~= seq![a[0]] + a.skip(1));
            assert(b =~= seq![b[0]] + b.skip(1));
        }
    } else if a.len() > 0 && b.len() > 0 {
        lemma_char_code_injective(a[0], b[0]);
        assert((a[0] as u32) < (b[0] as u32) || (b[0] as u32) < (a[0] as u32));
    }
}

/// The same tag views make the two versions interchangeable in the order.
pub open spec fn spec_version_eqv(a: Version, b: Version) -> bool {
    a.major == b.major && a.minor == b.minor && a.patch == b.patch && spec_pre_view(a.pre_release)
        == spec_pre_view(b.pre_release)
}

/// Two versions compare one way or the other, or are order-equivalent.
proof fn lemma_version_connected(x: Version, y: Version)
    ensures
        spec_version_lt(x, y) || spec_version_lt(y, x) || spec_version_eqv(x, y),
{
    if !spec_version_lt(x, y) && !spec_version_lt(y, x) && x.major == y.major && x.minor == y.minor
        && x.patch == y.patch {
        match (spec_pre_view(x.pre_release), spec_pre_view(y.pre_release)) {
            (Option::Some(p), Option::Some(q)) => {
                lemma_chars_lt_connected(p, q);
            },
            _ => {},
        }
    }
}

/// The version order is transitive.
proof fn lemma_version_lt_trans(x: Version, y: Version, z: Version)
    requires
        spec_version_lt(x, y),
        spec_version_lt(y, z),
    ensures
        spec_version_lt(x, z),
{
    if x.major == z.major && x.minor == z.minor && x.patch == z.patch && x.major == y.major
        && x.minor == y.minor && x.patch == y.patch {
        match (
            spec_pre_view(x.pre_release),
            spec_pre_view(y.pre_release),
            spec_pre_view(z.pre_release),
        ) {
            (Option::Some(p), Option::Some(q), Option::Some(s)) => {
                lemma_chars_lt_trans(s, q, p);
            },
            _ => {},
        }
    }
}

/// [`spec_opt_version_le`] is transitive.
pub proof fn lemma_version_le_trans(a: Option<Version>, b: Option<Version>, c: Option<Version>)
    requires
        spec_opt_version_le(a, b),
        spec_opt_version_le(b, c),
    ensures
        spec_opt_version_le(a, c),
{
    if a is Some && b is Some && c is Some {
        let x = a->0;
        let y = b->0;
        let z = c->0;
        lemma_version_connected(x, y);
        lemma_version_connected(y, z);
        if spec_version_lt(x, y) && spec_version_lt(y, z) {
            lemma_version_lt_trans(x, y, z);
            if spec_version_lt(z, x) {
                lemma_version_lt_trans(z, x, z);
                lemma_version_lt_irrefl(z);
            }
        } else if spec_version_lt(x, y) && spec_version_eqv(y, z) {
            if spec_version_lt(z, x) {
                lemma_version_lt_trans(z, x, y);
                lemma_version_lt_irrefl_eqv(z, y);
            }
        } else if spec_version_eqv(x, y) && spec_version_lt(y, z) {
            if spec_version_lt(z, x) {
                lemma_version_lt_trans(y, z, x);
                lemma_version_lt_irrefl_eqv(y, x);
            }
        } else {
            if spec_version_lt(z, x) {
                lemma_version_lt_irrefl_eqv(z, x);
            }
        }
    }
}

/// Nothing sorts strictly before an order-equivalent version.
proof fn lemma_version_lt_irrefl_eqv(x: Version, y: Version)
    requires
        spec_version_eqv(x, y) || spec_version_eqv(y, x),
    ensures
        !spec_version_lt(x, y),
{
    if spec_version_lt(x, y) {
        match (spec_pre_view(x.pre_release), spec_pre_view(y.pre_release)) {
            (Option::Some(p), Option::Some(q)) => {
                lemma_chars_lt_asym(q, p);
            },
            _ => {},
        }
    }
}

proof fn lemma_version_lt_irrefl(x: Version)
    ensures
        !spec_version_lt(x, x),
{
    lemma_version_lt_irrefl_eqv(x, x);
}

/// Comparison of parsed versions.
fn opt_version_le(a: &Option<Version>, b: &Option<Version>) -> (r: bool)
    ensures
        r == spec_opt_version_le(*a, *b),
{
    match (a, b) {
        (Option::None, _) => true,
        (Option::Some(_), Option::None) => false,
        (Option::Some(x), Option::Some(y)) => !y.earlier_than(x),
    }
}

impl PluginData {
    /// Folds one stat snapshot into the download series: when the entity has
    /// an observation, the running maximum is raised to it, and the count is
    /// recorded under the snapshot date when that date is valid and lies
    /// strictly after every date already on record. An entity without an
    /// observation is untouched.
    pub fn update_download_history(&mut self, stats: &PluginDownloadStats)
        ensures
            final(self).id == old(self).id,
            final(self).added_commit == old(self).added_commit,
            final(self).removed_commit == old(self).removed_commit,
            final(self).initial_entry == old(self).initial_entry,
            final(self).current_entry == old(self).current_entry,
            final(self).change_history == old(self).change_history,
            final(self).version_history == old(self).version_history,
            match spec_find_stat(stats.entries@, old(self).id@) {
                Option::None => *final(self) == *old(self),
                Option::Some(st) => {
                    &&& final(self).download_count == if st.downloads > old(self).download_count {
                        st.downloads
                    } else {
                        old(self).download_count
                    }
                    &&& final(self).download_history.0@ == if valid_date(stats.commit.date) && (
                    old(self).download_history.0@.len() == 0 || crate::date::spec_date_lt(
                        old(self).download_history.0@.last().date,
                        stats.commit.date,
                    )) {
                        old(self).download_history.0@.push(
                            DownloadRecord {
                                date: stats.commit.date,
                                downloads: st.downloads,
                            },
                        )
                    } else {
                        old(self).download_history.0@
                    }
                },
            },
    {
        let found = stats.find(self.id.as_str());
        match found {
            Option::Some(st) => {
                if st.downloads > self.download_count {
                    self.download_count = st.downloads;
                }
                let d = stats.get_date();
                let len = self.download_history.0.len();
                let ok = if len == 0 {
                    d.is_valid()
                } else {
                    d.is_valid() && crate::date::date_lt(
                        &self.download_history.0[len - 1].date,
                        &d,
                    )
                };
                if ok {
                    self.download_history.0.push(
                        DownloadRecord { date: d, downloads: st.downloads },
                    );
                }
            },
            Option::None => {},
        }
    }
    /// Folds one stat snapshot into the version history: every version
    /// identifier that parses and is not yet on record is added with this
    /// snapshot's date as its first-seen date. Later observations of the
    /// same version never overwrite the first.
    pub fn update_version_history(&mut self, stats: &PluginDownloadStats)
        ensures
            final(self).id == old(self).id,
            final(self).added_commit == old(self).added_commit,
            final(self).removed_commit == old(self).removed_commit,
            final(self).initial_entry == old(self).initial_entry,
            final(self).current_entry == old(self).current_entry,
            final(self).change_history == old(self).change_history,
            final(self).download_history == old(self).download_history,
            final(self).download_count == old(self).download_count,
            forall|i: int|
                0 <= i < old(self).version_history@.len() ==> final(self).version_history@[i]
                    == old(self).version_history@[i],
            forall|i: int|
                old(self).version_history@.len() <= i < final(self).version_history@.len()
                    ==> version_object_ok(#[trigger] final(self).version_history@[i]),
            match spec_find_stat(stats.entries@, old(self).id@) {
                Option::None => final(self).version_history == old(self).version_history,
                Option::Some(st) => vh_view(final(self).version_history@) =~= vh_view(
                    old(self).version_history@,
                ) + spec_new_versions(
                    vh_strings(old(self).version_history@),
                    st.versions@.map_values(|v: String| v@),
                    stats.commit.date,
                ),
            },
    {
        let found = stats.find(self.id.as_str());
        let st = match found {
            Option::Some(st) => st,
            Option::None => {
                return ;
            },
        };
        let d = stats.get_date();
        let ghost existing = vh_strings(self.version_history@);
        let ghost vs = st.versions@.map_values(|v: String| v@);
        let ghost base = self.version_history@;
        let mut i: usize = 0;
        while i < st.versions.len()
            invariant
                i <= st.versions@.len(),
                vs == st.versions@.map_values(|v: String| v@),
                existing == vh_strings(base),
                base.len() <= self.version_history@.len(),
                forall|j: int| 0 <= j < base.len() ==> self.version_history@[j] == base[j],
                forall|j: int|
                    base.len() <= j < self.version_history@.len() ==> version_object_ok(
                        #[trigger] self.version_history@[j],
                    ),
                vh_view(self.version_history@) =~= vh_view(base) + spec_new_versions(
                    existing,
                    vs.subrange(0, i as int),
                    d,
                ),
                vh_strings(self.version_history@) =~= existing + spec_new_versions(
                    existing,
                    vs.subrange(0, i as int),
                    d,
                ).map_values(|p: (Seq<char>, Date)| p.0),
                self.id == old(self).id,
                self.added_commit == old(self).added_commit,
                self.removed_commit == old(self).removed_commit,
                self.initial_entry == old(self).initial_entry,
                self.current_entry == old(self).current_entry,
                self.change_history == old(self).change_history,
                self.download_history == old(self).download_history,
                self.download_count == old(self).download_count,
            decreases st.versions@.len() - i,
        {
            let ghost pre = vs.subrange(0, i as int);
            let ghost now = vs.subrange(0, i + 1);
            proof {
                assert(now.drop_last() =~= pre);
                assert(now.last() == vs[i as int]);
            }
            let v = &st.versions[i];
            let parsed = Version::parse(v.as_str());
            let is_new = !contains_version(&self.version_history, v.as_str());
            match parsed {
                Option::Some(obj) => {
                    if is_new {
                        let vh = VersionHistory {
                            version: v.clone(),
                            version_object: Some(obj),
                            initial_release_date: d,
                        };
                        proof {
                            assert(version_object_ok(vh));
                        }
                        let ghost cur = self.version_history@;
                        let ghost prior = spec_new_versions(existing, pre, d);
                        let ghost priorf = prior.map_values(|p: (Seq<char>, Date)| p.0);
                        proof {
                            // the string is new to the record, so neither
                            // part of it holds the string
                            let x = now.last();
                            assert(x == vs[i as int]);
                            assert(!existing.contains(x)) by {
                                if existing.contains(x) {
                                    let w = choose|w: int|
                                        0 <= w < existing.len() && existing[w] == x;
                                    assert(vh_strings(cur)[w] == (existing + priorf)[w]);
                                    assert(vh_strings(cur).contains(x));
                                }
                            }
                            assert(!priorf.contains(x)) by {
                                if priorf.contains(x) {
                                    let w = choose|w: int| 0 <= w < priorf.len() && priorf[w] == x;
                                    assert(vh_strings(cur)[existing.len() + w] == (existing
                                        + priorf)[existing.len() + w]);
                                    assert(vh_strings(cur).contains(x));
                                }
                            }
                            assert(spec_new_versions(existing, now, d) == prior + seq![(x, d)]);
                        }
                        self.version_history.push(vh);
                        proof {
                            let added = spec_new_versions(existing, now, d);
                            assert(vh_view(self.version_history@) =~= vh_view(cur).push(
                                (vh.version@, d),
                            ));
                            assert(vh.version@ == vs[i as int]);
                            assert(vh_view(self.version_history@) =~= vh_view(base) + added);
                            assert(vh_strings(self.version_history@) =~= vh_strings(cur).push(
                                vh.version@,
                            ));
                            assert(added.map_values(|p: (Seq<char>, Date)| p.0) =~= priorf.push(
                                vs[i as int],
                            ));
                            assert(vh_strings(self.version_history@) =~= existing
                                + added.map_values(|p: (Seq<char>, Date)| p.0));
                        }
                    } else {
                        proof {
                            assert(spec_new_versions(existing, now, d) =~= spec_new_versions(
                                existing,
                                pre,
                                d,
                            ));
                        }
                    }
                },
                Option::None => {
                    proof {
                        assert(spec_new_versions(existing, now, d) =~= spec_new_versions(
                            existing,
                            pre,
                            d,
                        ));
                    }
                },
            }
            i = i + 1;
        }
        proof {
            assert(vs.subrange(0, vs.len() as int) =~= vs);
        }
    }

    /// Sorts the version history by parsed version order. The records are a
    /// rearrangement of the same observations; entries whose text did not
    /// parse would sort first, though the accumulator never stores any.
    pub fn sort_version_history(&mut self)
        ensures
            final(self).id == old(self).id,
            final(self).added_commit == old(self).added_commit,
            final(self).removed_commit == old(self).removed_commit,
            final(self).initial_entry == old(self).initial_entry,
            final(self).current_entry == old(self).current_entry,
            final(self).change_history == old(self).change_history,
            final(self).download_history == old(self).download_history,
            final(self).download_count == old(self).download_count,
            final(self).version_history@.to_multiset() == old(
                self,
            ).version_history@.to_multiset(),
            vh_view(final(self).version_history@).to_multiset() == vh_view(
                old(self).version_history@,
            ).to_multiset(),
            forall|i: int, j: int|
                0 <= i < j < final(self).version_history@.len() ==> spec_vh_le(
                    #[trigger] final(self).version_history@[i],
                    #[trigger] final(self).version_history@[j],
                ),
    {
        broadcast use vstd::seq_lib::group_to_multiset_ensures;

        let mut src: Vec<VersionHistory> = Vec::new();
        core::mem::swap(&mut src, &mut self.version_history);
        let ghost orig = src@;
        let mut out: Vec<VersionHistory> = Vec::new();
        while src.len() > 0
            invariant
                out@.to_multiset().add(src@.to_multiset()) == orig.to_multiset(),
                vh_view(out@).to_multiset().add(vh_view(src@).to_multiset()) == vh_view(
                    orig,
                ).to_multiset(),
                forall|i: int, j: int|
                    0 <= i < j < out@.len() ==> spec_vh_le(
                        #[trigger] out@[i],
                        #[trigger] out@[j],
                    ),
                forall|i: int, j: int|
                    0 <= i < out@.len() && 0 <= j < src@.len() ==> spec_vh_le(
                        #[trigger] out@[i],
                        #[trigger] src@[j],
                    ),
            decreases src@.len(),
        {
            // index of a least remaining record
            let mut min: usize = 0;
            let mut k: usize = 1;
            proof {
                lemma_version_le_total(src@[0].version_object, src@[0].version_object);
            }
            while k < src.len()
                invariant
                    min < k <= src@.len(),
                    src@.len() > 0,
                    forall|j: int| 0 <= j < k ==> spec_vh_le(src@[min as int], #[trigger] src@[j]),
                decreases src@.len() - k,
            {
                let ghost old_min = min as int;
                if !opt_version_le(&src[min].version_object, &src[k].version_object) {
                    proof {
                        lemma_version_le_total(
                            src@[min as int].version_object,
                            src@[k as int].version_object,
                        );
                    }
                    min = k;
                    proof {
                        assert forall|j: int| 0 <= j < k + 1 implies spec_vh_le(
                            src@[min as int],
                            #[trigger] src@[j],
                        ) by {
                            if j < k {
                                lemma_version_le_trans(
                                    src@[min as int].version_object,
                                    src@[old_min].version_object,
                                    src@[j].version_object,
                                );
                            } else {
                                lemma_version_le_total(
                                    src@[min as int].version_object,
                                    src@[min as int].version_object,
                                );
                            }
                        }
                    }
                }
                k = k + 1;
            }
            let ghost pre_src = src@;
            let ghost pre_out = out@;
            let picked = src.remove(min);
            out.push(picked);
            proof {
                assert(out@.to_multiset().add(src@.to_multiset()) =~= pre_out.to_multiset().add(
                    pre_src.to_multiset(),
                ));
                assert(vh_view(out@) =~= vh_view(pre_out).push(
                    (picked.version@, picked.initial_release_date),
                ));
                assert(vh_view(src@) =~= vh_view(pre_src).remove(min as int));
                assert(vh_view(pre_src)[min as int] == (
                    picked.version@,
                    picked.initial_release_date,
                ));
                assert(vh_view(out@).to_multiset().add(vh_view(src@).to_multiset()) =~= vh_view(
                    pre_out,
                ).to_multiset().add(vh_view(pre_src).to_multiset()));
                assert forall|i: int, j: int|
                    0 <= i < out@.len() && 0 <= j < src@.len() implies spec_vh_le(
                    #[trigger] out@[i],
                    #[trigger] src@[j],
                ) by {
                    if j < min {
                        assert(src@[j] == pre_src[j]);
                    } else {
                        assert(src@[j] == pre_src[j + 1]);
                    }
                    if i < pre_out.len() {
                        assert(out@[i] == pre_out[i]);
                    } else {
                        assert(out@[i] == picked);
                    }
                }
            }
        }
        self.version_history = out;
        proof {
            assert(src@.to_multiset() =~= vstd::multiset::Multiset::<VersionHistory>::empty());
            assert(self.version_history@.to_multiset() =~= orig.to_multiset());
            assert(vh_view(src@) =~= Seq::<(Seq<char>, Date)>::empty());
            assert(vh_view(src@).to_multiset() =~= vstd::multiset::Multiset::<
                (Seq<char>, Date),
            >::empty());
            assert(vh_view(self.version_history@).to_multiset() =~= vh_view(orig).to_multiset());
        }
    }
}

/// The identity and lifecycle fields the accumulator never touches.
pub open spec fn same_lifecycle(a: PluginData, b: PluginData) -> bool {
    &&& a.id == b.id
    &&& a.added_commit == b.added_commit
    &&& a.removed_commit == b.removed_commit
    &&& a.initial_entry == b.initial_entry
    &&& a.current_entry == b.current_entry
    &&& a.change_history == b.change_history
}

/// The operational allow-list of known-corrupt observation dates, excluded
/// wholesale from the download fold.
pub fn excluded_stat_dates() -> (r: Vec<Date>)
    ensures
        forall|i: int|
            0 <= i < r@.len() ==> valid_date(#[trigger] r@[i]) && r@[i].year == 2024
                && r@[i].month == 5,
{
    let mut r: Vec<Date> = Vec::new();
    let mut day: u32 = 18;
    while day <= 28
        invariant
            18 <= day <= 29,
            forall|i: int|
                0 <= i < r@.len() ==> valid_date(#[trigger] r@[i]) && r@[i].year == 2024
                    && r@[i].month == 5,
        decreases 29 - day,
    {
        r.push(Date { year: 2024, month: 5, day });
        day = day + 1;
    }
    r
}

/// Whether the list holds this date.
fn date_list_contains(dates: &Vec<Date>, d: &Date) -> (r: bool)
    ensures
        r == dates@.contains(*d),
{
    let mut i: usize = 0;
    while i < dates.len()
        invariant
            i <= dates@.len(),
            forall|j: int| 0 <= j < i ==> dates@[j] != *d,
        decreases dates@.len() - i,
    {
        if dates[i] == *d {
            return true;
        }
        i = i + 1;
    }
    false
}

/// One record's download state (series, running maximum) after one stat
/// snapshot: untouched when the snapshot's date is excluded, when the entity
/// did not yet exist at it, or when the snapshot has no observation for the
/// entity; otherwise updated exactly as [`PluginData::update_download_history`]
/// states.
pub open spec fn spec_apply_stat(
    h: Seq<DownloadRecord>,
    count: u32,
    st: PluginDownloadStats,
    id: Seq<char>,
    added: Date,
    excluded: Seq<Date>,
) -> (Seq<DownloadRecord>, u32) {
    if excluded.contains(st.commit.date) || !crate::date::spec_date_le(added, st.commit.date) {
        (h, count)
    } else {
        match spec_find_stat(st.entries@, id) {
            Option::Some(s) => (
                if valid_date(st.commit.date) && (h.len() == 0 || crate::date::spec_date_lt(
                    h.last().date,
                    st.commit.date,
                )) {
                    h.push(DownloadRecord { date: st.commit.date, downloads: s.downloads })
                } else {
                    h
                },
                if s.downloads > count {
                    s.downloads
                } else {
                    count
                },
            ),
            Option::None => (h, count),
        }
    }
}

/// The download state after folding a whole stats sequence, oldest first.
pub open spec fn spec_fold_stats(
    h: Seq<DownloadRecord>,
    count: u32,
    stats: Seq<PluginDownloadStats>,
    id: Seq<char>,
    added: Date,
    excluded: Seq<Date>,
) -> (Seq<DownloadRecord>, u32)
    decreases stats.len(),
{
    if stats.len() == 0 {
        (h, count)
    } else {
        let prev = spec_fold_stats(h, count, stats.drop_last(), id, added, excluded);
        spec_apply_stat(prev.0, prev.1, stats.last(), id, added, excluded)
    }
}

/// Folds the whole ordered stats sequence into the download series of every
/// record: each record ends in exactly the state the per-snapshot fold
/// prescribes. A snapshot on an excluded date is skipped wholesale, and an
/// entity that did not yet exist at a snapshot's date is not touched by it.
pub fn update_weekly_download_stats(
    plugin_data: &mut Vec<PluginData>,
    download_stats: &Vec<PluginDownloadStats>,
    excluded_dates: &Vec<Date>,
)
    ensures
        final(plugin_data)@.len() == old(plugin_data)@.len(),
        forall|i: int|
            0 <= i < final(plugin_data)@.len() ==> same_lifecycle(
                #[trigger] final(plugin_data)@[i],
                old(plugin_data)@[i],
            ) && final(plugin_data)@[i].version_history == old(plugin_data)@[i].version_history,
        forall|i: int|
            0 <= i < final(plugin_data)@.len() ==> {
                let folded = spec_fold_stats(
                    old(plugin_data)@[i].download_history.0@,
                    old(plugin_data)@[i].download_count,
                    download_stats@,
                    old(plugin_data)@[i].id@,
                    old(plugin_data)@[i].added_commit.date,
                    excluded_dates@,
                );
                (#[trigger] final(plugin_data)@[i]).download_history.0@ == folded.0
                    && final(plugin_data)@[i].download_count == folded.1
            },
{
    let ghost base = old(plugin_data)@;
    let mut s: usize = 0;
    while s < download_stats.len()
        invariant
            s <= download_stats@.len(),
            base == old(plugin_data)@,
            plugin_data@.len() == base.len(),
            forall|i: int|
                0 <= i < plugin_data@.len() ==> same_lifecycle(
                    #[trigger] plugin_data@[i],
                    base[i],
                ) && plugin_data@[i].version_history == base[i].version_history,
            forall|i: int|
                0 <= i < plugin_data@.len() ==> {
                    let folded = spec_fold_stats(
                        base[i].download_history.0@,
                        base[i].download_count,
                        download_stats@.subrange(0, s as int),
                        base[i].id@,
                        base[i].added_commit.date,
                        excluded_dates@,
                    );
                    (#[trigger] plugin_data@[i]).download_history.0@ == folded.0
                        && plugin_data@[i].download_count == folded.1
                },
        decreases download_stats@.len() - s,
    {
        let ghost pre_stats = download_stats@.subrange(0, s as int);
        let ghost cur_stats = download_stats@.subrange(0, s + 1);
        proof {
            assert(cur_stats.drop_last() =~= pre_stats);
            assert(cur_stats.last() == download_stats@[s as int]);
        }
        let ghost round_start = plugin_data@;
        let stat = &download_stats[s];
        let d = stat.get_date();
        let skip_round = date_list_contains(excluded_dates, &d);
        if !skip_round {
            let mut i: usize = 0;
            while i < plugin_data.len()
                invariant
                    i <= plugin_data@.len(),
                    base == old(plugin_data)@,
                    plugin_data@.len() == base.len(),
                    round_start.len() == base.len(),
                    stat == &download_stats@[s as int],
                    s < download_stats@.len(),
                    !excluded_dates@.contains(download_stats@[s as int].commit.date),
                    d == download_stats@[s as int].commit.date,
                    forall|j: int|
                        0 <= j < plugin_data@.len() ==> same_lifecycle(
                            #[trigger] plugin_data@[j],
                            base[j],
                        ) && plugin_data@[j].version_history == base[j].version_history,
                    forall|j: int|
                        0 <= j < round_start.len() ==> same_lifecycle(
                            #[trigger] round_start[j],
                            base[j],
                        ),
                    forall|j: int| i <= j < plugin_data@.len() ==> #[trigger] plugin_data@[j]
                        == round_start[j],
                    forall|j: int|
                        0 <= j < i ==> {
                            let applied = spec_apply_stat(
                                round_start[j].download_history.0@,
                                round_start[j].download_count,
                                download_stats@[s as int],
                                base[j].id@,
                                base[j].added_commit.date,
                                excluded_dates@,
                            );
                            (#[trigger] plugin_data@[j]).download_history.0@ == applied.0
                                && plugin_data@[j].download_count == applied.1
                        },
                decreases plugin_data@.len() - i,
            {
                let ghost before = plugin_data@;
                let exists_already = crate::date::date_le(
                    &plugin_data[i].added_commit.date,
                    &d,
                );
                if exists_already {
                    let p = &mut plugin_data[i];
                    p.update_download_history(stat);
                }
                proof {
                    assert(forall|j: int|
                        0 <= j < plugin_data@.len() && j != i ==> plugin_data@[j] == before[j]);
                }
                i = i + 1;
            }
            proof {
                assert forall|i: int| 0 <= i < plugin_data@.len() implies {
                    let folded = spec_fold_stats(
                        base[i].download_history.0@,
                        base[i].download_count,
                        cur_stats,
                        base[i].id@,
                        base[i].added_commit.date,
                        excluded_dates@,
                    );
                    (#[trigger] plugin_data@[i]).download_history.0@ == folded.0
                        && plugin_data@[i].download_count == folded.1
                } by {
                    assert(round_start[i].download_history.0@ == spec_fold_stats(
                        base[i].download_history.0@,
                        base[i].download_count,
                        pre_stats,
                        base[i].id@,
                        base[i].added_commit.date,
                        excluded_dates@,
                    ).0);
                }
            }
        } else {
            proof {
                assert forall|i: int| 0 <= i < plugin_data@.len() implies {
                    let folded = spec_fold_stats(
                        base[i].download_history.0@,
                        base[i].download_count,
                        cur_stats,
                        base[i].id@,
                        base[i].added_commit.date,
                        excluded_dates@,
                    );
                    (#[trigger] plugin_data@[i]).download_history.0@ == folded.0
                        && plugin_data@[i].download_count == folded.1
                } by {
                    assert(excluded_dates@.contains(download_stats@[s as int].commit.date));
                }
            }
        }
        s = s + 1;
    }
    proof {
        assert(download_stats@.subrange(0, download_stats@.len() as int) =~= download_stats@);
    }
}

/// One record's version history (as text/date pairs) after one stat
/// snapshot: untouched when the snapshot has no observation for the entity,
/// else extended by exactly the snapshot's new versions.
pub open spec fn spec_apply_versions(
    vh: Seq<(Seq<char>, Date)>,
    st: PluginDownloadStats,
    id: Seq<char>,
) -> Seq<(Seq<char>, Date)> {
    match spec_find_stat(st.entries@, id) {
        Option::Some(s) => vh + spec_new_versions(
            vh.map_values(|p: (Seq<char>, Date)| p.0),
            s.versions@.map_values(|v: String| v@),
            st.commit.date,
        ),
        Option::None => vh,
    }
}

/// The version history after folding a whole stats sequence, oldest first.
pub open spec fn spec_fold_versions(
    vh: Seq<(Seq<char>, Date)>,
    stats: Seq<PluginDownloadStats>,
    id: Seq<char>,
) -> Seq<(Seq<char>, Date)>
    decreases stats.len(),
{
    if stats.len() == 0 {
        vh
    } else {
        spec_apply_versions(
            spec_fold_versions(vh, stats.drop_last(), id),
            stats.last(),
            id,
        )
    }
}

/// Folds the whole stats sequence into the version history of every record,
/// then sorts each history by parsed version order: each record ends with
/// exactly the releases the per-snapshot fold prescribes, rearranged into
/// sorted order.
pub fn update_version_history(
    plugin_data: &mut Vec<PluginData>,
    download_stats: &Vec<PluginDownloadStats>,
)
    ensures
        final(plugin_data)@.len() == old(plugin_data)@.len(),
        forall|i: int|
            0 <= i < final(plugin_data)@.len() ==> same_lifecycle(
                #[trigger] final(plugin_data)@[i],
                old(plugin_data)@[i],
            ) && final(plugin_data)@[i].download_history == old(plugin_data)@[i].download_history
                && final(plugin_data)@[i].download_count == old(plugin_data)@[i].download_count,
        forall|i: int|
            0 <= i < final(plugin_data)@.len() ==> vh_view(
                (#[trigger] final(plugin_data)@[i]).version_history@,
            ).to_multiset() == spec_fold_versions(
                vh_view(old(plugin_data)@[i].version_history@),
                download_stats@,
                old(plugin_data)@[i].id@,
            ).to_multiset(),
        forall|i: int, a: int, b: int|
            0 <= i < final(plugin_data)@.len() && 0 <= a < b
                < final(plugin_data)@[i].version_history@.len() ==> spec_vh_le(
                #[trigger] final(plugin_data)@[i].version_history@[a],
                #[trigger] final(plugin_data)@[i].version_history@[b],
            ),
{
    let ghost base = old(plugin_data)@;
    let mut s: usize = 0;
    while s < download_stats.len()
        invariant
            s <= download_stats@.len(),
            base == old(plugin_data)@,
            plugin_data@.len() == base.len(),
            forall|i: int|
                0 <= i < plugin_data@.len() ==> same_lifecycle(
                    #[trigger] plugin_data@[i],
                    base[i],
                ) && plugin_data@[i].download_history == base[i].download_history
                    && plugin_data@[i].download_count == base[i].download_count,
            forall|i: int|
                0 <= i < plugin_data@.len() ==> vh_view(
                    (#[trigger] plugin_data@[i]).version_history@,
                ) == spec_fold_versions(
                    vh_view(base[i].version_history@),
                    download_stats@.subrange(0, s as int),
                    base[i].id@,
                ),
        decreases download_stats@.len() - s,
    {
        let ghost pre_stats = download_stats@.subrange(0, s as int);
        let ghost cur_stats = download_stats@.subrange(0, s + 1);
        proof {
            assert(cur_stats.drop_last() =~= pre_stats);
            assert(cur_stats.last() == download_stats@[s as int]);
        }
        let ghost round_start = plugin_data@;
        let stat = &download_stats[s];
        let mut i: usize = 0;
        while i < plugin_data.len()
            invariant
                i <= plugin_data@.len(),
                base == old(plugin_data)@,
                plugin_data@.len() == base.len(),
                round_start.len() == base.len(),
                stat == &download_stats@[s as int],
                s < download_stats@.len(),
                forall|j: int|
                    0 <= j < plugin_data@.len() ==> same_lifecycle(
                        #[trigger] plugin_data@[j],
                        base[j],
                    ) && plugin_data@[j].download_history == base[j].download_history
                        && plugin_data@[j].download_count == base[j].download_count,
                forall|j: int|
                    0 <= j < round_start.len() ==> same_lifecycle(
                        #[trigger] round_start[j],
                        base[j],
                    ),
                forall|j: int| i <= j < plugin_data@.len() ==> #[trigger] plugin_data@[j]
                    == round_start[j],
                forall|j: int|
                    0 <= j < i ==> vh_view((#[trigger] plugin_data@[j]).version_history@)
                        == spec_apply_versions(
                        vh_view(round_start[j].version_history@),
                        download_stats@[s as int],
                        base[j].id@,
                    ),
            decreases plugin_data@.len() - i,
        {
            let ghost before = plugin_data@;
            let p = &mut plugin_data[i];
            p.update_version_history(stat);
            proof {
                assert(forall|j: int|
                    0 <= j < plugin_data@.len() && j != i ==> plugin_data@[j] == before[j]);
                // the per-record strings are the first coordinates of the
                // view pairs
                let oldvh = round_start[i as int].version_history@;
                assert(vh_strings(oldvh) =~= vh_view(oldvh).map_values(
                    |p: (Seq<char>, Date)| p.0,
                ));
            }
            i = i + 1;
        }
        proof {
            assert forall|i: int| 0 <= i < plugin_data@.len() implies vh_view(
                (#[trigger] plugin_data@[i]).version_history@,
            ) == spec_fold_versions(
                vh_view(base[i].version_history@),
                cur_stats,
                base[i].id@,
            ) by {
                assert(vh_view(round_start[i].version_history@) == spec_fold_versions(
                    vh_view(base[i].version_history@),
                    pre_stats,
                    base[i].id@,
                ));
            }
        }
        s = s + 1;
    }
    proof {
        assert(download_stats@.subrange(0, download_stats@.len() as int) =~= download_stats@);
    }
    let mut i: usize = 0;
    while i < plugin_data.len()
        invariant
            i <= plugin_data@.len(),
            base == old(plugin_data)@,
            plugin_data@.len() == base.len(),
            forall|j: int|
                0 <= j < plugin_data@.len() ==> same_lifecycle(
                    #[trigger] plugin_data@[j],
                    base[j],
                ) && plugin_data@[j].download_history == base[j].download_history
                    && plugin_data@[j].download_count == base[j].download_count,
            forall|j: int|
                i <= j < plugin_data@.len() ==> vh_view(
                    (#[trigger] plugin_data@[j]).version_history@,
                ) == spec_fold_versions(
                    vh_view(base[j].version_history@),
                    download_stats@,
                    base[j].id@,
                ),
            forall|j: int|
                0 <= j < i ==> vh_view(
                    (#[trigger] plugin_data@[j]).version_history@,
                ).to_multiset() == spec_fold_versions(
                    vh_view(base[j].version_history@),
                    download_stats@,
                    base[j].id@,
                ).to_multiset(),
            forall|j: int, a: int, b: int|
                0 <= j < i && 0 <= a < b < plugin_data@[j].version_history@.len() ==> spec_vh_le(
                    #[trigger] plugin_data@[j].version_history@[a],
                    #[trigger] plugin_data@[j].version_history@[b],
                ),
        decreases plugin_data@.len() - i,
    {
        let ghost before = plugin_data@;
        let p = &mut plugin_data[i];
        p.sort_version_history();
        proof {
            assert(forall|j: int|
                0 <= j < plugin_data@.len() && j != i ==> plugin_data@[j] == before[j]);
        }
        i = i + 1;
    }
}

/// Whether a record survives the post-pass noise filters: an entity removed
/// on the very day it was added is discarded, and so is one with no
/// observed downloads that was already more than a week old at the cutoff.
/// An entity still inside the seven-day grace window is kept even without
/// downloads: its first observations may simply not have arrived yet.
pub open spec fn spec_keep_plugin(p: PluginData, now: Date) -> bool {
    &&& match p.removed_commit {
        Option::Some(c) => c.date != p.added_commit.date,
        Option::None => true,
    }
    &&& !(p.download_count == 0 && day_index(now) - day_index(p.added_commit.date) > 7)
}

/// The post-pass filter over all records.
pub fn filter_plugins(plugin_data: Vec<PluginData>, now: &Date) -> (r: Vec<PluginData>)
    requires
        valid_date(*now),
        now.year <= 1_000_000,
        forall|i: int|
            0 <= i < plugin_data@.len() ==> valid_date(
                (#[trigger] plugin_data@[i]).added_commit.date,
            ) && plugin_data@[i].added_commit.date.year <= 1_000_000,
    ensures
        r@ == plugin_data@.filter(|p: PluginData| spec_keep_plugin(p, *now)),
{
    let ghost pred = |p: PluginData| spec_keep_plugin(p, *now);
    let ghost orig = plugin_data@;
    let mut src = plugin_data;
    let mut r: Vec<PluginData> = Vec::new();
    let ghost mut done: int = 0;
    proof {
        reveal(Seq::filter);
        assert(orig.subrange(0, 0).filter(pred) =~= Seq::<PluginData>::empty());
        assert(src@ =~= orig.subrange(0, orig.len() as int));
    }
    while src.len() > 0
        invariant
            0 <= done <= orig.len(),
            src@ == orig.subrange(done, orig.len() as int),
            valid_date(*now),
            now.year <= 1_000_000,
            forall|j: int|
                0 <= j < orig.len() ==> valid_date((#[trigger] orig[j]).added_commit.date)
                    && orig[j].added_commit.date.year <= 1_000_000,
            r@ == orig.subrange(0, done).filter(pred),
        decreases src@.len(),
    {
        let p = src.remove(0);
        proof {
            assert(src@ =~= orig.subrange(done + 1, orig.len() as int));
        }
        let keep_removed = match &p.removed_commit {
            Option::Some(c) => !(c.date == p.added_commit.date),
            Option::None => true,
        };
        let mut advanced = p.added_commit.date;
        proof {
            assert(p == orig[done]);
        }
        advanced.advance_days(7);
        proof {
            crate::date::lemma_date_order_index(advanced, *now);
            crate::date::lemma_date_order_index(*now, advanced);
        }
        let keep_fresh = !(p.download_count == 0 && crate::date::date_lt(&advanced, now));
        let ghost pre = orig.subrange(0, done);
        let ghost cur = orig.subrange(0, done + 1);
        proof {
            assert(cur.drop_last() =~= pre);
            assert(cur.last() == orig[done]);
            assert(pred(orig[done]) == spec_keep_plugin(orig[done], *now));
            assert(keep_removed == match orig[done].removed_commit {
                Option::Some(c) => c.date != orig[done].added_commit.date,
                Option::None => true,
            });
            assert(crate::date::spec_date_lt(advanced, *now) == (day_index(*now) - day_index(
                orig[done].added_commit.date,
            ) > 7));
            assert(keep_fresh == !(orig[done].download_count == 0 && day_index(*now) - day_index(
                orig[done].added_commit.date,
            ) > 7));
            assert(keep_removed && keep_fresh <==> pred(orig[done]));
            reveal(Seq::filter);
            assert(cur.filter(pred) == if pred(orig[done]) {
                pre.filter(pred).push(orig[done])
            } else {
                pre.filter(pred)
            });
        }
        if keep_removed && keep_fresh {
            r.push(p);
        }
        proof {
            done = done + 1;
        }
    }
    proof {
        assert(orig.subrange(0, orig.len() as int) =~= orig);
        assert(done == orig.len());
    }
    r
}

} // verus!
