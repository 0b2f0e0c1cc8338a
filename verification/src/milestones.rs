//! Milestone detection: threshold ladders walked month by month.
//!
//! Each tracked metric owns a strictly increasing threshold ladder and a
//! single cursor that only ever advances, so every threshold is reported in
//! exactly one month — a later dip and recovery of the metric never reports
//! it again.

use vstd::prelude::*;

use crate::data_array::{
    spec_first_in_window, spec_kth_month, spec_week_total, view_wf, array_wf, FullPluginData,
    PluginDataArray, PluginDataArrayView,
};
use crate::common::DownloadRecord;
use crate::date::{day_index, spec_date_le, spec_date_lt, valid_date, Date};

verus! {

/// The four tracked metrics.
#[derive(Debug, Clone, Copy, PartialEq, Eq, Structural, Hash)]
pub enum MilestoneType {
    PluginCount,
    TotalDownloads,
    ReleaseCount,
    DownloadCount,
}

pub open spec fn spec_milestone_name(t: MilestoneType) -> Seq<char> {
    match t {
        MilestoneType::PluginCount => "plugin-count"@,
        MilestoneType::TotalDownloads => "total-downloads"@,
        MilestoneType::ReleaseCount => "release-count"@,
        MilestoneType::DownloadCount => "download-count"@,
    }
}

impl MilestoneType {
    pub fn to_string(&self) -> (r: &'static str)
        ensures
            r@ == spec_milestone_name(*self),
    {
        match self {
            MilestoneType::PluginCount => "plugin-count",
            MilestoneType::TotalDownloads => "total-downloads",
            MilestoneType::ReleaseCount => "release-count",
            MilestoneType::DownloadCount => "download-count",
        }
    }

    pub fn all() -> (r: Vec<MilestoneType>)
        ensures
            r@ == seq![
                MilestoneType::PluginCount,
                MilestoneType::TotalDownloads,
                MilestoneType::ReleaseCount,
                MilestoneType::DownloadCount,
            ],
    {
        let mut r: Vec<MilestoneType> = Vec::new();
        r.push(MilestoneType::PluginCount);
        r.push(MilestoneType::TotalDownloads);
        r.push(MilestoneType::ReleaseCount);
        r.push(MilestoneType::DownloadCount);
        proof {
            assert(r@ =~= seq![
                MilestoneType::PluginCount,
                MilestoneType::TotalDownloads,
                MilestoneType::ReleaseCount,
                MilestoneType::DownloadCount,
            ]);
        }
        r
    }
}

/// One threshold crossing: an immutable fact, attributed to an entity when
/// the metric is per-entity.
#[derive(Debug, Clone)]
pub struct MilestoneData {
    pub milestone_type: MilestoneType,
    pub milestone_value: u32,
    pub date: Date,
    pub plugin_id: Option<String>,
}

/// The crossings of one month.
#[derive(Debug, Clone)]
pub struct MilestoneMonthGroup {
    pub month: String,
    pub milestones: Vec<MilestoneData>,
}

pub open spec fn pow10(p: nat) -> int
    decreases p,
{
    if p == 0 {
        1
    } else {
        10 * pow10((p - 1) as nat)
    }
}

/// One power's worth of thresholds: the step multiples of `10^p` that fit
/// in `u32`.
pub open spec fn spec_row(p: nat, steps: Seq<u32>) -> Seq<u32>
    decreases steps.len(),
{
    if steps.len() == 0 {
        Seq::empty()
    } else {
        spec_row(p, steps.drop_last()) + (if pow10(p) * steps.last() <= u32::MAX {
            seq![(pow10(p) * steps.last()) as u32]
        } else {
            Seq::<u32>::empty()
        })
    }
}

/// The ladder over an exponent range: the rows of `lo` through `hi - 1`.
pub open spec fn spec_ladder(lo: nat, hi: nat, steps: Seq<u32>) -> Seq<u32>
    decreases hi - lo,
{
    if hi <= lo {
        Seq::empty()
    } else {
        spec_ladder(lo, (hi - 1) as nat, steps) + spec_row((hi - 1) as nat, steps)
    }
}

/// The fixed step multipliers.
pub open spec fn spec_steps() -> Seq<u32> {
    seq![1u32, 2u32, 5u32]
}

/// The ladder of one metric.
pub open spec fn spec_type_ladder(t: MilestoneType) -> Seq<u32> {
    match t {
        MilestoneType::PluginCount => spec_ladder(2, 6, spec_steps()),
        MilestoneType::TotalDownloads => spec_ladder(4, 10, spec_steps()),
        MilestoneType::ReleaseCount => spec_ladder(1, 6, spec_steps()),
        MilestoneType::DownloadCount => spec_ladder(3, 10, spec_steps()),
    }
}

proof fn lemma_pow10_pos(p: nat)
    ensures
        pow10(p) >= 1,
    decreases p,
{
    if p > 0 {
        lemma_pow10_pos((p - 1) as nat);
    }
}

/// The row at one power, with the fixed steps: between `10^p` and
/// `5 * 10^p`, strictly increasing.
proof fn lemma_row_facts(p: nat)
    ensures
        forall|m: int|
            0 <= m < spec_row(p, spec_steps()).len() ==> pow10(p) <= #[trigger] spec_row(
                p,
                spec_steps(),
            )[m] <= 5 * pow10(p),
        forall|m: int, n: int|
            0 <= m < n < spec_row(p, spec_steps()).len() ==> spec_row(p, spec_steps())[m]
                < spec_row(p, spec_steps())[n],
{
    lemma_pow10_pos(p);
    let e = pow10(p);
    let steps = spec_steps();
    assert(steps.drop_last() =~= seq![1u32, 2u32]);
    assert(seq![1u32, 2u32].drop_last() =~= seq![1u32]);
    assert(seq![1u32].drop_last() =~= Seq::<u32>::empty());
    assert(spec_row(p, Seq::<u32>::empty()) =~= Seq::<u32>::empty());
    assert(e * 1 == e);
    assert(e * 2 == 2 * e);
    assert(e * 5 == 5 * e);
    assert(seq![1u32].last() == 1u32);
    assert(seq![1u32, 2u32].last() == 2u32);
    assert(steps.last() == 5u32);
    let r1 = spec_row(p, seq![1u32]);
    let r2 = spec_row(p, seq![1u32, 2u32]);
    let r3 = spec_row(p, steps);
    assert(r1 == Seq::<u32>::empty() + (if e * 1 <= u32::MAX {
        seq![(e * 1) as u32]
    } else {
        Seq::<u32>::empty()
    }));
    assert(r2 == r1 + (if e * 2 <= u32::MAX {
        seq![(e * 2) as u32]
    } else {
        Seq::<u32>::empty()
    }));
    assert(r3 == r2 + (if e * 5 <= u32::MAX {
        seq![(e * 5) as u32]
    } else {
        Seq::<u32>::empty()
    }));
    if 5 * e <= u32::MAX {
        assert(r3 =~= seq![e as u32, (2 * e) as u32, (5 * e) as u32]);
    } else if 2 * e <= u32::MAX {
        assert(r3 =~= seq![e as u32, (2 * e) as u32]);
    } else if e <= u32::MAX {
        assert(r3 =~= seq![e as u32]);
    } else {
        assert(r3 =~= Seq::<u32>::empty());
    }
}

/// `10^p` unfolds one step.
proof fn lemma_pow10_step(p: nat)
    requires
        p >= 1,
    ensures
        pow10(p) == 10 * pow10((p - 1) as nat),
{
}

/// With the fixed steps, every ladder element lies between `10^lo` and
/// `5 * 10^(hi-1)`, and the ladder increases strictly.
proof fn lemma_ladder_increasing(lo: nat, hi: nat)
    requires
        lo <= hi,
    ensures
        forall|i: int, j: int|
            0 <= i < j < spec_ladder(lo, hi, spec_steps()).len() ==> #[trigger] spec_ladder(
                lo,
                hi,
                spec_steps(),
            )[i] < #[trigger] spec_ladder(lo, hi, spec_steps())[j],
        forall|i: int|
            0 <= i < spec_ladder(lo, hi, spec_steps()).len() ==> pow10(lo)
                <= #[trigger] spec_ladder(lo, hi, spec_steps())[i] && (hi > lo ==> spec_ladder(
                lo,
                hi,
                spec_steps(),
            )[i] <= 5 * pow10((hi - 1) as nat)),
    decreases hi - lo,
{
    let steps = spec_steps();
    if hi > lo {
        let p = (hi - 1) as nat;
        lemma_ladder_increasing(lo, p);
        lemma_row_facts(p);
        lemma_pow10_pos(p);
        let prev = spec_ladder(lo, p, steps);
        let row = spec_row(p, steps);
        assert(spec_ladder(lo, hi, steps) == prev + row);
        if lo < p {
            lemma_pow10_step(p);
            lemma_pow10_monotone(lo, (p - 1) as nat);
            assert(5 * pow10((p - 1) as nat) < pow10(p));
        }
        lemma_pow10_monotone(lo, p);
        assert forall|i: int, j: int|
            0 <= i < j < spec_ladder(lo, hi, steps).len() implies #[trigger] spec_ladder(
            lo,
            hi,
            steps,
        )[i] < #[trigger] spec_ladder(lo, hi, steps)[j] by {
            if j >= prev.len() && i < prev.len() {
                assert(spec_ladder(lo, hi, steps)[i] == prev[i]);
                assert(spec_ladder(lo, hi, steps)[j] == row[j - prev.len()]);
                assert(row[j - prev.len()] >= pow10(p));
                if lo < p {
                    assert(prev[i] <= 5 * pow10((p - 1) as nat));
                }
            } else if i >= prev.len() {
                assert(spec_ladder(lo, hi, steps)[i] == row[i - prev.len()]);
                assert(spec_ladder(lo, hi, steps)[j] == row[j - prev.len()]);
            } else {
                assert(spec_ladder(lo, hi, steps)[i] == prev[i]);
                assert(spec_ladder(lo, hi, steps)[j] == prev[j]);
            }
        }
        assert forall|i: int|
            0 <= i < spec_ladder(lo, hi, steps).len() implies pow10(lo) <= #[trigger] spec_ladder(
            lo,
            hi,
            steps,
        )[i] && spec_ladder(lo, hi, steps)[i] <= 5 * pow10(p) by {
            if i < prev.len() {
                assert(spec_ladder(lo, hi, steps)[i] == prev[i]);
                if lo < p {
                    assert(prev[i] <= 5 * pow10((p - 1) as nat));
                    assert(5 * pow10((p - 1) as nat) <= 5 * pow10(p));
                }
            } else {
                assert(spec_ladder(lo, hi, steps)[i] == row[i - prev.len()]);
            }
        }
    }
}

proof fn lemma_pow10_monotone(a: nat, b: nat)
    requires
        a <= b,
    ensures
        pow10(a) <= pow10(b),
        a < b ==> 10 * pow10(a) <= pow10(b),
    decreases b - a,
{
    lemma_pow10_pos(a);
    if a < b {
        lemma_pow10_monotone(a, (b - 1) as nat);
        lemma_pow10_pos((b - 1) as nat);
    }
}

/// `10^p` as a machine integer.
fn pow10_u64(p: u32) -> (r: u64)
    requires
        p <= 15,
    ensures
        r == pow10(p as nat),
        1 <= r <= 1_000_000_000_000_000,
{
    let mut r: u64 = 1;
    let mut i: u32 = 0;
    while i < p
        invariant
            i <= p,
            p <= 15,
            r == pow10(i as nat),
            1 <= r,
            i < 15 ==> r <= 100_000_000_000_000,
            r <= 1_000_000_000_000_000,
        decreases p - i,
    {
        proof {
            lemma_pow10_monotone(i as nat, 14);
            reveal_with_fuel(pow10, 16);
            assert(pow10(14) == 100_000_000_000_000);
        }
        r = r * 10;
        i = i + 1;
    }
    proof {
        lemma_pow10_monotone(p as nat, 15);
        reveal_with_fuel(pow10, 16);
        assert(pow10(15) == 1_000_000_000_000_000);
    }
    r
}

/// The thresholds `10^p * s` for `p` over the range and `s` over the steps,
/// keeping those that fit in `u32`. With the fixed steps the result is
/// strictly increasing.
pub fn generate_milestones(potentials: core::ops::Range<u32>, steps: &Vec<u32>) -> (r: Vec<u32>)
    requires
        potentials.end <= 15,
        forall|i: int| 0 <= i < steps@.len() ==> #[trigger] steps@[i] <= 1000,
    ensures
        potentials.start <= potentials.end ==> r@ == spec_ladder(
            potentials.start as nat,
            potentials.end as nat,
            steps@,
        ),
        potentials.start > potentials.end ==> r@.len() == 0,
{
    let lo = potentials.start;
    let hi = potentials.end;
    let mut r: Vec<u32> = Vec::new();
    let mut p: u32 = lo;
    proof {
        if lo <= hi {
            assert(spec_ladder(lo as nat, lo as nat, steps@) =~= Seq::<u32>::empty());
        }
    }
    while p < hi
        invariant
            lo <= hi ==> lo <= p <= hi,
            hi <= 15,
            forall|i: int| 0 <= i < steps@.len() ==> #[trigger] steps@[i] <= 1000,
            lo <= hi ==> r@ == spec_ladder(lo as nat, p as nat, steps@),
            lo > hi ==> r@.len() == 0 && p == lo,
        decreases hi - p,
    {
        let base = pow10_u64(p);
        let mut j: usize = 0;
        let ghost row_start = r@;
        proof {
            assert(steps@.subrange(0, 0) =~= Seq::<u32>::empty());
            assert(spec_row(p as nat, Seq::<u32>::empty()) =~= Seq::<u32>::empty());
            assert(r@ =~= row_start + spec_row(p as nat, steps@.subrange(0, 0)));
        }
        while j < steps.len()
            invariant
                j <= steps@.len(),
                p < hi <= 15,
                base == pow10(p as nat),
                1 <= base <= 1_000_000_000_000_000,
                forall|i: int| 0 <= i < steps@.len() ==> #[trigger] steps@[i] <= 1000,
                r@ == row_start + spec_row(p as nat, steps@.subrange(0, j as int)),
            decreases steps@.len() - j,
        {
            let ghost pre = steps@.subrange(0, j as int);
            let ghost cur = steps@.subrange(0, j + 1);
            proof {
                assert(cur.drop_last() =~= pre);
                assert(cur.last() == steps@[j as int]);
                assert(spec_row(p as nat, Seq::<u32>::empty()) =~= Seq::<u32>::empty());
            }
            proof {
                assert(base * steps@[j as int] <= 1_000_000_000_000_000_000) by (nonlinear_arith)
                    requires
                        1 <= base <= 1_000_000_000_000_000,
                        0 <= steps@[j as int] <= 1000,
                ;
            }
            let v: u64 = base * steps[j] as u64;
            if v <= u32::MAX as u64 {
                r.push(v as u32);
                proof {
                    assert(r@ =~= row_start + spec_row(p as nat, cur));
                }
            } else {
                proof {
                    assert(r@ =~= row_start + spec_row(p as nat, cur));
                }
            }
            j = j + 1;
        }
        proof {
            assert(steps@.subrange(0, steps@.len() as int) =~= steps@);
            if lo <= hi {
                assert(spec_ladder(lo as nat, (p + 1) as nat, steps@) == spec_ladder(
                    lo as nat,
                    p as nat,
                    steps@,
                ) + spec_row(p as nat, steps@));
            }
        }
        p = p + 1;
    }
    r
}

/// The fixed step multipliers as a vector.
fn steps_vec() -> (r: Vec<u32>)
    ensures
        r@ == spec_steps(),
{
    let mut r: Vec<u32> = Vec::new();
    r.push(1);
    r.push(2);
    r.push(5);
    proof {
        assert(r@ =~= spec_steps());
    }
    r
}

/// The milestone ladder of one metric: strictly increasing.
pub fn get_milestones_for_type(milestone_type: MilestoneType) -> (r: Vec<u32>)
    ensures
        r@ == spec_type_ladder(milestone_type),
        forall|i: int, j: int| 0 <= i < j < r@.len() ==> r@[i] < r@[j],
{
    let steps = steps_vec();
    let r = match milestone_type {
        MilestoneType::PluginCount => generate_milestones(2..6, &steps),
        MilestoneType::TotalDownloads => generate_milestones(4..10, &steps),
        MilestoneType::ReleaseCount => generate_milestones(1..6, &steps),
        MilestoneType::DownloadCount => generate_milestones(3..10, &steps),
    };
    proof {
        match milestone_type {
            MilestoneType::PluginCount => lemma_ladder_increasing(2, 6),
            MilestoneType::TotalDownloads => lemma_ladder_increasing(4, 10),
            MilestoneType::ReleaseCount => lemma_ladder_increasing(1, 6),
            MilestoneType::DownloadCount => lemma_ladder_increasing(3, 10),
        }
    }
    r
}

/// Where the cursor starts scanning: just past the last reached index.
pub open spec fn spec_cursor_start(last: Option<usize>) -> int {
    match last {
        Option::Some(i) => i + 1,
        Option::None => 0,
    }
}

/// Walks the ladder from just past the cursor and reports every threshold
/// at or below the current value; the cursor advances past what was
/// reported, so nothing is ever reported twice.
pub fn check_milestones_reached(
    current_value: u32,
    milestones: &Vec<u32>,
    last_reached_index: &mut Option<usize>,
) -> (r: Vec<u32>)
    requires
        match *old(last_reached_index) {
            Option::Some(i) => i < milestones@.len(),
            Option::None => true,
        },
    ensures
        ({
            let start = spec_cursor_start(*old(last_reached_index));
            &&& r@ == milestones@.subrange(start, start + r@.len())
            &&& forall|i: int| 0 <= i < r@.len() ==> #[trigger] r@[i] <= current_value
            &&& (start + r@.len() < milestones@.len() ==> milestones@[start + r@.len()]
                > current_value)
            &&& *final(last_reached_index) == if r@.len() > 0 {
                Option::Some((start + r@.len() - 1) as usize)
            } else {
                *old(last_reached_index)
            }
            &&& start + r@.len() <= milestones@.len()
        }),
{
    let mut reached: Vec<u32> = Vec::new();
    let n = milestones.len();
    let start_index = match *last_reached_index {
        Option::Some(i) => i + 1,
        Option::None => 0,
    };
    let mut idx = start_index;
    while idx < milestones.len()
        invariant
            start_index <= idx <= milestones@.len() || (idx == start_index && start_index
                >= milestones@.len()),
            start_index == spec_cursor_start(*old(last_reached_index)),
            reached@ == milestones@.subrange(
                start_index as int,
                start_index + reached@.len(),
            ),
            idx == start_index + reached@.len(),
            forall|i: int| 0 <= i < reached@.len() ==> #[trigger] reached@[i] <= current_value,
            *last_reached_index == if reached@.len() > 0 {
                Option::Some((idx - 1) as usize)
            } else {
                *old(last_reached_index)
            },
        decreases milestones@.len() - idx,
    {
        let milestone = milestones[idx];
        if current_value >= milestone {
            reached.push(milestone);
            *last_reached_index = Some(idx);
            proof {
                assert(reached@ =~= milestones@.subrange(
                    start_index as int,
                    start_index + reached@.len(),
                ));
            }
        } else {
            proof {
                assert(reached@ =~= milestones@.subrange(
                    start_index as int,
                    start_index + reached@.len(),
                ));
            }
            return reached;
        }
        idx = idx + 1;
    }
    proof {
        assert(reached@ =~= milestones@.subrange(
            start_index as int,
            start_index + reached@.len(),
        ));
    }
    reached
}

/// How many view entities are active at the date: added at or before it and
/// not removed at or before it.
pub open spec fn spec_active_count(datas: Seq<FullPluginData>, idxs: Seq<usize>, date: Date) -> int
    decreases idxs.len(),
{
    if idxs.len() == 0 {
        0
    } else {
        spec_active_count(datas, idxs.drop_last(), date) + ({
            let p = datas[idxs.last() as int];
            if spec_date_le(p.data.added_commit.date, date) && (match p.data.removed_commit {
                Option::Some(c) => crate::date::spec_date_lt(date, c.date),
                Option::None => true,
            }) {
                1int
            } else {
                0int
            }
        })
    }
}

/// Whether any view entity has a sample in the week at `lo`.
pub open spec fn spec_any_sample(datas: Seq<FullPluginData>, idxs: Seq<usize>, lo: int) -> bool {
    exists|i: int|
        0 <= i < idxs.len() && spec_first_in_window(
            datas[(#[trigger] idxs[i]) as int].data.download_history.0@,
            lo,
            lo + 7,
        ) is Some
}

/// How many of an entity's releases were first seen at or before the date.
pub open spec fn spec_release_count(h: Seq<crate::common::VersionHistory>, date: Date) -> int
    decreases h.len(),
{
    if h.len() == 0 {
        0
    } else {
        spec_release_count(h.drop_last(), date) + (if spec_date_le(
            h.last().initial_release_date,
            date,
        ) {
            1int
        } else {
            0int
        })
    }
}

/// The largest count observed for an entity at or before the date.
pub open spec fn spec_max_dl_at(h: Seq<DownloadRecord>, date: Date) -> int
    decreases h.len(),
{
    if h.len() == 0 {
        0
    } else {
        let rest = spec_max_dl_at(h.drop_last(), date);
        if spec_date_le(h.last().date, date) && h.last().downloads > rest {
            h.last().downloads as int
        } else {
            rest
        }
    }
}

/// The count of active, non-retired entities at the date.
pub fn get_plugin_count_at_date(date: &Date, data: &PluginDataArray, view: &PluginDataArrayView)
    -> (r: u32)
    requires
        view_wf(view.indices@, data.data@),
        view.indices@.len() <= 1_000_000,
    ensures
        r == spec_active_count(data.data@, view.indices@, *date),
{
    let mut count: u32 = 0;
    let mut i: usize = 0;
    proof {
        assert(view.indices@.subrange(0, 0) =~= Seq::<usize>::empty());
    }
    while i < view.indices.len()
        invariant
            i <= view.indices@.len(),
            view_wf(view.indices@, data.data@),
            view.indices@.len() <= 1_000_000,
            count == spec_active_count(data.data@, view.indices@.subrange(0, i as int), *date),
            count <= i,
        decreases view.indices@.len() - i,
    {
        let ghost pre = view.indices@.subrange(0, i as int);
        let ghost cur = view.indices@.subrange(0, i + 1);
        proof {
            assert(cur.drop_last() =~= pre);
            assert(cur.last() == view.indices@[i as int]);
        }
        let p = &data.data[view.indices[i]];
        if crate::date::date_le(&p.data.added_commit.date, date) {
            let active = match &p.data.removed_commit {
                Option::Some(c) => crate::date::date_lt(date, &c.date),
                Option::None => true,
            };
            if active {
                count = count + 1;
            }
        }
        i = i + 1;
    }
    proof {
        assert(view.indices@.subrange(0, view.indices@.len() as int) =~= view.indices@);
    }
    count
}

/// The total of the view's weekly samples at the date, when any entity has
/// one; clamped into `u32`.
pub fn get_total_downloads_at_date(
    date: &Date,
    data: &PluginDataArray,
    view: &PluginDataArrayView,
) -> (r: Option<u32>)
    requires
        view_wf(view.indices@, data.data@),
        array_wf(data.data@),
        valid_date(*date),
        date.year <= 1_000_000,
        view.indices@.len() <= 1_000_000,
    ensures
        match r {
            Option::Some(v) => spec_any_sample(data.data@, view.indices@, day_index(*date)) && v
                == crate::data_array::spec_clamp_u32(
                spec_week_total(data.data@, view.indices@, day_index(*date)),
            ),
            Option::None => !spec_any_sample(data.data@, view.indices@, day_index(*date)),
        },
{
    let mut total: u64 = 0;
    let mut found_any = false;
    let mut i: usize = 0;
    proof {
        assert(view.indices@.subrange(0, 0) =~= Seq::<usize>::empty());
    }
    while i < view.indices.len()
        invariant
            i <= view.indices@.len(),
            view_wf(view.indices@, data.data@),
            array_wf(data.data@),
            valid_date(*date),
            date.year <= 1_000_000,
            view.indices@.len() <= 1_000_000,
            total == spec_week_total(
                data.data@,
                view.indices@.subrange(0, i as int),
                day_index(*date),
            ),
            total <= (i as int) * (u32::MAX as int),
            found_any == exists|j: int|
                0 <= j < i && spec_first_in_window(
                    data.data@[(#[trigger] view.indices@[j]) as int].data.download_history.0@,
                    day_index(*date),
                    day_index(*date) + 7,
                ) is Some,
        decreases view.indices@.len() - i,
    {
        let ghost pre = view.indices@.subrange(0, i as int);
        let ghost cur = view.indices@.subrange(0, i + 1);
        proof {
            assert(cur.drop_last() =~= pre);
            assert(cur.last() == view.indices@[i as int]);
            vstd::arithmetic::mul::lemma_mul_inequality(i + 1, 1_000_000, u32::MAX as int);
        }
        let p = &data.data[view.indices[i]];
        match p.find_downloads_in_week(date) {
            Option::Some(v) => {
                total = total + v as u64;
                found_any = true;
            },
            Option::None => {},
        }
        i = i + 1;
    }
    proof {
        assert(view.indices@.subrange(0, view.indices@.len() as int) =~= view.indices@);
    }
    if found_any {
        if total <= u32::MAX as u64 {
            Some(total as u32)
        } else {
            Some(u32::MAX)
        }
    } else {
        None
    }
}

/// The largest release count among the view's entities at the date, with
/// the id of an entity attaining it; nothing when every count is zero.
pub fn get_max_release_count_at_date(
    date: &Date,
    data: &PluginDataArray,
    view: &PluginDataArrayView,
) -> (r: Option<(u32, String)>)
    requires
        view_wf(view.indices@, data.data@),
        view.indices@.len() <= 1_000_000,
        forall|i: int|
            0 <= i < data.data@.len() ==> (#[trigger] data.data@[i]).data.version_history@.len()
                <= 1_000_000_000,
    ensures
        match r {
            Option::Some(pair) => {
                &&& pair.0 >= 1
                &&& exists|i: int|
                    0 <= i < view.indices@.len() && spec_release_count(
                        data.data@[(#[trigger] view.indices@[i]) as int].data.version_history@,
                        *date,
                    ) == pair.0 && pair.1@ == data.data@[view.indices@[i] as int].data.id@
                &&& forall|i: int|
                    0 <= i < view.indices@.len() ==> spec_release_count(
                        data.data@[(#[trigger] view.indices@[i]) as int].data.version_history@,
                        *date,
                    ) <= pair.0
            },
            Option::None => forall|i: int|
                0 <= i < view.indices@.len() ==> spec_release_count(
                    data.data@[(#[trigger] view.indices@[i]) as int].data.version_history@,
                    *date,
                ) == 0,
        },
{
    let mut max_count: u32 = 0;
    let mut max_id: Option<String> = None;
    let mut i: usize = 0;
    while i < view.indices.len()
        invariant
            i <= view.indices@.len(),
            view_wf(view.indices@, data.data@),
            view.indices@.len() <= 1_000_000,
            forall|j: int|
                0 <= j < data.data@.len() ==> (
                #[trigger] data.data@[j]).data.version_history@.len() <= 1_000_000_000,
            max_count == 0 ==> max_id is None && forall|j: int|
                0 <= j < i ==> spec_release_count(
                    data.data@[(#[trigger] view.indices@[j]) as int].data.version_history@,
                    *date,
                ) == 0,
            max_count > 0 ==> (match max_id {
                Option::Some(id) => exists|j: int|
                    0 <= j < i && spec_release_count(
                        data.data@[(#[trigger] view.indices@[j]) as int].data.version_history@,
                        *date,
                    ) == max_count && id@ == data.data@[view.indices@[j] as int].data.id@,
                Option::None => false,
            }),
            forall|j: int|
                0 <= j < i ==> spec_release_count(
                    data.data@[(#[trigger] view.indices@[j]) as int].data.version_history@,
                    *date,
                ) <= max_count,
        decreases view.indices@.len() - i,
    {
        let p = &data.data[view.indices[i]];
        let c = release_count_at(&p.data.version_history, date);
        if c > max_count {
            max_count = c;
            max_id = Some(p.data.id.clone());
        }
        i = i + 1;
    }
    if max_count > 0 {
        match max_id {
            Option::Some(id) => Some((max_count, id)),
            Option::None => None,
        }
    } else {
        None
    }
}

/// How many of the entity's releases were first seen at or before the date.
fn release_count_at(h: &Vec<crate::common::VersionHistory>, date: &Date) -> (r: u32)
    requires
        h@.len() <= 1_000_000_000,
    ensures
        r == spec_release_count(h@, *date),
{
    let mut count: u32 = 0;
    let mut i: usize = 0;
    proof {
        assert(h@.subrange(0, 0) =~= Seq::<crate::common::VersionHistory>::empty());
    }
    while i < h.len()
        invariant
            i <= h@.len(),
            h@.len() <= 1_000_000_000,
            count == spec_release_count(h@.subrange(0, i as int), *date),
            count <= i,
        decreases h@.len() - i,
    {
        let ghost pre = h@.subrange(0, i as int);
        let ghost cur = h@.subrange(0, i + 1);
        proof {
            assert(cur.drop_last() =~= pre);
            assert(cur.last() == h@[i as int]);
        }
        if crate::date::date_le(&h[i].initial_release_date, date) {
            count = count + 1;
        }
        i = i + 1;
    }
    proof {
        assert(h@.subrange(0, h@.len() as int) =~= h@);
    }
    count
}

/// The largest download count among the view's entities at the date, with
/// the id of an entity attaining it; nothing when every count is zero.
pub fn get_max_download_count_at_date(
    date: &Date,
    data: &PluginDataArray,
    view: &PluginDataArrayView,
) -> (r: Option<(u32, String)>)
    requires
        view_wf(view.indices@, data.data@),
    ensures
        match r {
            Option::Some(pair) => {
                &&& pair.0 >= 1
                &&& exists|i: int|
                    0 <= i < view.indices@.len() && spec_max_dl_at(
                        data.data@[(
                        #[trigger] view.indices@[i]) as int].data.download_history.0@,
                        *date,
                    ) == pair.0 && pair.1@ == data.data@[view.indices@[i] as int].data.id@
                &&& forall|i: int|
                    0 <= i < view.indices@.len() ==> spec_max_dl_at(
                        data.data@[(
                        #[trigger] view.indices@[i]) as int].data.download_history.0@,
                        *date,
                    ) <= pair.0
            },
            Option::None => forall|i: int|
                0 <= i < view.indices@.len() ==> spec_max_dl_at(
                    data.data@[(#[trigger] view.indices@[i]) as int].data.download_history.0@,
                    *date,
                ) == 0,
        },
{
    let mut max_count: u32 = 0;
    let mut max_id: Option<String> = None;
    let mut i: usize = 0;
    while i < view.indices.len()
        invariant
            i <= view.indices@.len(),
            view_wf(view.indices@, data.data@),
            max_count == 0 ==> max_id is None && forall|j: int|
                0 <= j < i ==> spec_max_dl_at(
                    data.data@[(#[trigger] view.indices@[j]) as int].data.download_history.0@,
                    *date,
                ) == 0,
            max_count > 0 ==> (match max_id {
                Option::Some(id) => exists|j: int|
                    0 <= j < i && spec_max_dl_at(
                        data.data@[(
                        #[trigger] view.indices@[j]) as int].data.download_history.0@,
                        *date,
                    ) == max_count && id@ == data.data@[view.indices@[j] as int].data.id@,
                Option::None => false,
            }),
            forall|j: int|
                0 <= j < i ==> spec_max_dl_at(
                    data.data@[(#[trigger] view.indices@[j]) as int].data.download_history.0@,
                    *date,
                ) <= max_count,
        decreases view.indices@.len() - i,
    {
        let p = &data.data[view.indices[i]];
        let c = max_dl_at(&p.data.download_history.0, date);
        if c > max_count {
            max_count = c;
            max_id = Some(p.data.id.clone());
        }
        i = i + 1;
    }
    if max_count > 0 {
        match max_id {
            Option::Some(id) => Some((max_count, id)),
            Option::None => None,
        }
    } else {
        None
    }
}

/// The largest count the entity's series records at or before the date.
fn max_dl_at(h: &Vec<DownloadRecord>, date: &Date) -> (r: u32)
    ensures
        r == spec_max_dl_at(h@, *date),
{
    let mut best: u32 = 0;
    let mut i: usize = 0;
    proof {
        assert(h@.subrange(0, 0) =~= Seq::<DownloadRecord>::empty());
    }
    while i < h.len()
        invariant
            i <= h@.len(),
            best == spec_max_dl_at(h@.subrange(0, i as int), *date),
        decreases h@.len() - i,
    {
        let ghost pre = h@.subrange(0, i as int);
        let ghost cur = h@.subrange(0, i + 1);
        proof {
            assert(cur.drop_last() =~= pre);
            assert(cur.last() == h@[i as int]);
        }
        let rec = &h[i];
        if crate::date::date_le(&rec.date, date) && rec.downloads > best {
            best = rec.downloads;
        }
        i = i + 1;
    }
    proof {
        assert(h@.subrange(0, h@.len() as int) =~= h@);
    }
    best
}

/// The values one month's group reports for a metric, in group order.
pub open spec fn group_values(ms: Seq<MilestoneData>, t: MilestoneType) -> Seq<u32>
    decreases ms.len(),
{
    if ms.len() == 0 {
        Seq::empty()
    } else {
        group_values(ms.drop_last(), t) + (if ms.last().milestone_type == t {
            seq![ms.last().milestone_value]
        } else {
            Seq::<u32>::empty()
        })
    }
}

/// Every value reported for a metric across all months, in report order.
pub open spec fn spec_reported(groups: Seq<MilestoneMonthGroup>, t: MilestoneType) -> Seq<u32>
    decreases groups.len(),
{
    if groups.len() == 0 {
        Seq::empty()
    } else {
        spec_reported(groups.drop_last(), t) + group_values(groups.last().milestones@, t)
    }
}

/// Appends one batch of crossed thresholds to a month's group, attributed
/// to the given entity when the metric is per-entity.
fn append_reached(
    month: &mut Vec<MilestoneData>,
    t: MilestoneType,
    reached: &Vec<u32>,
    date: &Date,
    plugin_id: &Option<String>,
)
    ensures
        group_values(final(month)@, t) == group_values(old(month)@, t) + reached@,
        forall|t2: MilestoneType|
            t2 != t ==> group_values(final(month)@, t2) == group_values(old(month)@, t2),
        final(month)@.len() == old(month)@.len() + reached@.len(),
        forall|m: int| 0 <= m < old(month)@.len() ==> #[trigger] final(month)@[m]
            == old(month)@[m],
        forall|m: int|
            old(month)@.len() <= m < final(month)@.len() ==> {
                let md = #[trigger] final(month)@[m];
                &&& md.milestone_type == t
                &&& md.date == *date
                &&& md.milestone_value == reached@[m - old(month)@.len()]
                &&& match (md.plugin_id, *plugin_id) {
                    (Option::Some(a), Option::Some(b)) => a@ == b@,
                    (Option::None, Option::None) => true,
                    _ => false,
                }
            },
{
    let mut k: usize = 0;
    while k < reached.len()
        invariant
            k <= reached@.len(),
            month@.len() == old(month)@.len() + k,
            forall|m: int| 0 <= m < old(month)@.len() ==> #[trigger] month@[m] == old(month)@[m],
            forall|m: int|
                old(month)@.len() <= m < month@.len() ==> {
                    let md = #[trigger] month@[m];
                    &&& md.milestone_type == t
                    &&& md.date == *date
                    &&& md.milestone_value == reached@[m - old(month)@.len()]
                    &&& match (md.plugin_id, *plugin_id) {
                        (Option::Some(a), Option::Some(b)) => a@ == b@,
                        (Option::None, Option::None) => true,
                        _ => false,
                    }
                },
            group_values(month@, t) =~= group_values(old(month)@, t) + reached@.subrange(
                0,
                k as int,
            ),
            forall|t2: MilestoneType|
                t2 != t ==> group_values(month@, t2) =~= group_values(old(month)@, t2),
        decreases reached@.len() - k,
    {
        let ghost before = month@;
        let id = match plugin_id {
            Option::Some(s) => Some(s.clone()),
            Option::None => None,
        };
        month.push(
            MilestoneData {
                milestone_type: t,
                milestone_value: reached[k],
                date: *date,
                plugin_id: id,
            },
        );
        proof {
            assert(month@.drop_last() =~= before);
            assert(group_values(month@, t) =~= group_values(before, t) + seq![
                reached@[k as int],
            ]);
            assert(group_values(old(month)@, t) + reached@.subrange(0, k + 1) =~= (group_values(
                old(month)@,
                t,
            ) + reached@.subrange(0, k as int)) + seq![reached@[k as int]]);
            assert forall|t2: MilestoneType| t2 != t implies group_values(month@, t2)
                =~= group_values(old(month)@, t2) by {
                assert(group_values(month@, t2) =~= group_values(before, t2));
            }
        }
        k = k + 1;
    }
    proof {
        assert(reached@.subrange(0, reached@.len() as int) =~= reached@);
    }
}

/// How many ladder values lie at or below `m`: on a strictly increasing
/// ladder, the length of the reachable prefix.
pub open spec fn spec_cover(ladder: Seq<u32>, m: int) -> int
    decreases ladder.len(),
{
    if ladder.len() == 0 {
        0
    } else if ladder[0] > m {
        0
    } else {
        1 + spec_cover(ladder.skip(1), m)
    }
}

/// On a strictly increasing ladder the cover is the unique cut: everything
/// before it lies at or below `m`, everything from it above.
proof fn lemma_cover_char(ladder: Seq<u32>, m: int)
    requires
        forall|i: int, j: int| 0 <= i < j < ladder.len() ==> ladder[i] < ladder[j],
    ensures
        0 <= spec_cover(ladder, m) <= ladder.len(),
        spec_cover(ladder, m) < ladder.len() ==> ladder[spec_cover(ladder, m)] > m,
        spec_cover(ladder, m) > 0 ==> ladder[spec_cover(ladder, m) - 1] <= m,
    decreases ladder.len(),
{
    if ladder.len() > 0 && ladder[0] <= m {
        let tail = ladder.skip(1);
        assert(forall|i: int| 0 <= i < tail.len() ==> tail[i] == ladder[i + 1]);
        lemma_cover_char(tail, m);
    }
}

/// Any cut with the cover's two properties is the cover.
proof fn lemma_cover_unique(ladder: Seq<u32>, m: int, s: int)
    requires
        forall|i: int, j: int| 0 <= i < j < ladder.len() ==> ladder[i] < ladder[j],
        0 <= s <= ladder.len(),
        s < ladder.len() ==> ladder[s] > m,
        s > 0 ==> ladder[s - 1] <= m,
    ensures
        s == spec_cover(ladder, m),
{
    lemma_cover_char(ladder, m);
    let c = spec_cover(ladder, m);
    if s < c {
        assert(ladder[s] <= ladder[c - 1] || s == c - 1);
        assert(ladder[s] <= m);
    } else if s > c {
        assert(ladder[c] <= ladder[s - 1] || c == s - 1);
        assert(ladder[c] > m);
    }
}

/// The largest release count over the view at the date.
pub open spec fn spec_max_release(datas: Seq<FullPluginData>, idxs: Seq<usize>, d: Date) -> int
    decreases idxs.len(),
{
    if idxs.len() == 0 {
        0
    } else {
        let rest = spec_max_release(datas, idxs.drop_last(), d);
        let v = spec_release_count(datas[idxs.last() as int].data.version_history@, d);
        if v > rest {
            v
        } else {
            rest
        }
    }
}

/// The largest per-entity download count over the view at the date.
pub open spec fn spec_max_download(datas: Seq<FullPluginData>, idxs: Seq<usize>, d: Date) -> int
    decreases idxs.len(),
{
    if idxs.len() == 0 {
        0
    } else {
        let rest = spec_max_download(datas, idxs.drop_last(), d);
        let v = spec_max_dl_at(datas[idxs.last() as int].data.download_history.0@, d);
        if v > rest {
            v
        } else {
            rest
        }
    }
}

/// The value each metric takes over the view at one date; an undefined
/// observation counts as zero, below every ladder rung.
pub open spec fn spec_metric_value(
    t: MilestoneType,
    datas: Seq<FullPluginData>,
    idxs: Seq<usize>,
    d: Date,
) -> int {
    match t {
        MilestoneType::PluginCount => spec_active_count(datas, idxs, d),
        MilestoneType::TotalDownloads => crate::data_array::spec_clamp_u32(
            spec_week_total(datas, idxs, day_index(d)),
        ) as int,
        MilestoneType::ReleaseCount => spec_max_release(datas, idxs, d),
        MilestoneType::DownloadCount => spec_max_download(datas, idxs, d),
    }
}

/// The metric's running maximum over the first `k` walked months; -1 before
/// any month was walked.
pub open spec fn spec_running_max(
    t: MilestoneType,
    datas: Seq<FullPluginData>,
    idxs: Seq<usize>,
    start: Date,
    k: nat,
) -> int
    decreases k,
{
    if k == 0 {
        -1
    } else {
        let prev = spec_running_max(t, datas, idxs, start, (k - 1) as nat);
        let v = spec_metric_value(t, datas, idxs, spec_kth_month(start, (k - 1) as nat));
        if v > prev {
            v
        } else {
            prev
        }
    }
}

/// How many months the walk from `start` through `end` visits.
pub open spec fn spec_num_months(start: Date, end: Date) -> nat
    decreases 12 * (end.year + 1) + end.month - (12 * start.year + start.month),
{
    if !(1 <= start.month <= 12) || start.year > 2_000_000 || end.year > 2_000_000 {
        0
    } else if spec_date_lt(end, start) {
        0
    } else {
        1 + spec_num_months(crate::date::spec_next_month(start), end)
    }
}

/// The month sequence the calendar iterator produces has exactly
/// [`spec_num_months`] entries.
proof fn lemma_iterate_month_count(ds: Seq<Date>, s: Date, e: Date)
    requires
        1 <= s.month <= 12,
        e.year <= 2_000_000,
        ds.len() > 0 ==> ds[0] == s,
        ds.len() == 0 <==> spec_date_lt(e, s),
        forall|i: int| 0 <= i < ds.len() ==> spec_date_le(#[trigger] ds[i], e),
        forall|i: int| 1 <= i < ds.len() ==> #[trigger] ds[i] == crate::date::spec_next_month(
            ds[i - 1],
        ),
        ds.len() > 0 ==> spec_date_lt(e, crate::date::spec_next_month(ds[ds.len() - 1])),
    ensures
        ds.len() == spec_num_months(s, e),
    decreases ds.len(),
{
    if ds.len() > 0 {
        // a visited month is at or before the bound, so within the guard
        assert(spec_date_le(ds[0], e));
        assert(s.year <= 2_000_000);
        let tail = ds.skip(1);
        assert(forall|i: int| 0 <= i < tail.len() ==> tail[i] == ds[i + 1]);
        let s2 = crate::date::spec_next_month(s);
        if tail.len() > 0 {
            assert(tail[0] == ds[1]);
            assert(ds[1] == crate::date::spec_next_month(ds[0]));
            assert(spec_date_le(ds[1], e));
        } else {
            assert(spec_date_lt(e, crate::date::spec_next_month(ds[0])));
        }
        assert forall|i: int| 1 <= i < tail.len() implies #[trigger] tail[i]
            == crate::date::spec_next_month(tail[i - 1]) by {
            assert(tail[i] == ds[i + 1]);
            assert(tail[i - 1] == ds[i]);
        }
        assert(ds[ds.len() - 1] == if tail.len() > 0 {
            tail[tail.len() - 1]
        } else {
            ds[0]
        });
        lemma_iterate_month_count(tail, s2, e);
    }
}

/// Without any sample in the window, the week total is zero.
proof fn lemma_no_sample_zero(datas: Seq<FullPluginData>, idxs: Seq<usize>, lo: int)
    requires
        !spec_any_sample(datas, idxs, lo),
    ensures
        spec_week_total(datas, idxs, lo) == 0,
    decreases idxs.len(),
{
    if idxs.len() > 0 {
        let pre = idxs.drop_last();
        assert(!spec_any_sample(datas, pre, lo)) by {
            if spec_any_sample(datas, pre, lo) {
                let w = choose|w: int|
                    0 <= w < pre.len() && spec_first_in_window(
                        datas[(#[trigger] pre[w]) as int].data.download_history.0@,
                        lo,
                        lo + 7,
                    ) is Some;
                assert(idxs[w] == pre[w]);
            }
        }
        lemma_no_sample_zero(datas, pre, lo);
        assert(idxs[idxs.len() - 1] == idxs.last());
        assert(spec_first_in_window(
            datas[idxs.last() as int].data.download_history.0@,
            lo,
            lo + 7,
        ) is None);
    }
}

/// The spec maximum of the view's release counts is nonnegative, dominates
/// every count, and is attained unless zero.
proof fn lemma_max_release_char(datas: Seq<FullPluginData>, idxs: Seq<usize>, d: Date)
    ensures
        spec_max_release(datas, idxs, d) >= 0,
        forall|i: int|
            0 <= i < idxs.len() ==> spec_release_count(
                datas[(#[trigger] idxs[i]) as int].data.version_history@,
                d,
            ) <= spec_max_release(datas, idxs, d),
        spec_max_release(datas, idxs, d) > 0 ==> exists|i: int|
            0 <= i < idxs.len() && spec_release_count(
                datas[(#[trigger] idxs[i]) as int].data.version_history@,
                d,
            ) == spec_max_release(datas, idxs, d),
    decreases idxs.len(),
{
    if idxs.len() > 0 {
        let pre = idxs.drop_last();
        lemma_max_release_char(datas, pre, d);
        lemma_release_count_nonneg(datas[idxs.last() as int].data.version_history@, d);
        assert(forall|i: int| 0 <= i < pre.len() ==> pre[i] == idxs[i]);
        assert(idxs[idxs.len() - 1] == idxs.last());
    }
}

proof fn lemma_release_count_nonneg(h: Seq<crate::common::VersionHistory>, d: Date)
    ensures
        spec_release_count(h, d) >= 0,
    decreases h.len(),
{
    if h.len() > 0 {
        lemma_release_count_nonneg(h.drop_last(), d);
    }
}

/// The spec maximum of the view's download counts, with the same shape.
proof fn lemma_max_download_char(datas: Seq<FullPluginData>, idxs: Seq<usize>, d: Date)
    ensures
        spec_max_download(datas, idxs, d) >= 0,
        forall|i: int|
            0 <= i < idxs.len() ==> spec_max_dl_at(
                datas[(#[trigger] idxs[i]) as int].data.download_history.0@,
                d,
            ) <= spec_max_download(datas, idxs, d),
        spec_max_download(datas, idxs, d) > 0 ==> exists|i: int|
            0 <= i < idxs.len() && spec_max_dl_at(
                datas[(#[trigger] idxs[i]) as int].data.download_history.0@,
                d,
            ) == spec_max_download(datas, idxs, d),
    decreases idxs.len(),
{
    if idxs.len() > 0 {
        let pre = idxs.drop_last();
        lemma_max_download_char(datas, pre, d);
        lemma_max_dl_nonneg(datas[idxs.last() as int].data.download_history.0@, d);
        assert(forall|i: int| 0 <= i < pre.len() ==> pre[i] == idxs[i]);
        assert(idxs[idxs.len() - 1] == idxs.last());
    }
}

proof fn lemma_max_dl_nonneg(h: Seq<DownloadRecord>, d: Date)
    ensures
        spec_max_dl_at(h, d) >= 0,
    decreases h.len(),
{
    if h.len() > 0 {
        lemma_max_dl_nonneg(h.drop_last(), d);
    }
}

/// One reported crossing is justified at its own date: the metric stood at
/// or above the threshold, and the per-entity metrics carry the id of an
/// entity attaining the month's maximum while the aggregate ones carry
/// none.
pub open spec fn milestone_entry_ok(
    md: MilestoneData,
    datas: Seq<FullPluginData>,
    idxs: Seq<usize>,
) -> bool {
    match md.milestone_type {
        MilestoneType::PluginCount => md.plugin_id is None && md.milestone_value
            <= spec_active_count(datas, idxs, md.date),
        MilestoneType::TotalDownloads => md.plugin_id is None && md.milestone_value
            <= crate::data_array::spec_clamp_u32(spec_week_total(datas, idxs, day_index(md.date))),
        MilestoneType::ReleaseCount => match md.plugin_id {
            Option::Some(id) => {
                &&& md.milestone_value <= spec_max_release(datas, idxs, md.date)
                &&& exists|i: int|
                    0 <= i < idxs.len() && spec_release_count(
                        datas[(#[trigger] idxs[i]) as int].data.version_history@,
                        md.date,
                    ) == spec_max_release(datas, idxs, md.date) && id@ == datas[idxs[i] as int].data.id@
            },
            Option::None => false,
        },
        MilestoneType::DownloadCount => match md.plugin_id {
            Option::Some(id) => {
                &&& md.milestone_value <= spec_max_download(datas, idxs, md.date)
                &&& exists|i: int|
                    0 <= i < idxs.len() && spec_max_dl_at(
                        datas[(#[trigger] idxs[i]) as int].data.download_history.0@,
                        md.date,
                    ) == spec_max_download(datas, idxs, md.date) && id@ == datas[idxs[i] as int].data.id@
            },
            Option::None => false,
        },
    }
}

/// How a month labels itself: the zero-padded year and month of its date.
pub open spec fn spec_month_label(d: Date) -> Seq<char> {
    crate::digits::dec_repr_pad(d.year as nat, 4) + "-"@ + crate::digits::dec_repr_pad(
        d.month as nat,
        2,
    )
}

/// The cursor state of one metric: the reported values are exactly a prefix
/// of its ladder, and the cursor sits just past them.
pub open spec fn cursor_ok(
    groups: Seq<MilestoneMonthGroup>,
    t: MilestoneType,
    cursor: Option<usize>,
) -> bool {
    &&& spec_reported(groups, t) == spec_type_ladder(t).subrange(0, spec_cursor_start(cursor))
    &&& 0 <= spec_cursor_start(cursor) <= spec_type_ladder(t).len()
    &&& (cursor matches Option::Some(i) ==> i < spec_type_ladder(t).len())
}

/// Walks every month from the start of 2020 through `end` and reports, per
/// metric, every threshold first reached that month. For each metric the
/// values reported across all months form a prefix of its strictly
/// increasing ladder — so a threshold, once reported, is never reported
/// again, even when the metric later drops and recovers.
/// One cursor step covers exactly the new running maximum: starting from
/// the cover of the old maximum, a batch that takes everything at or below
/// the month's value and stops at the first rung above it lands on the
/// cover of the raised maximum.
proof fn lemma_cover_step(ladder: Seq<u32>, m_old: int, v: int, s: int, batch: Seq<u32>)
    requires
        forall|i: int, j: int| 0 <= i < j < ladder.len() ==> ladder[i] < ladder[j],
        s == spec_cover(ladder, m_old),
        s + batch.len() <= ladder.len(),
        batch == ladder.subrange(s, s + batch.len()),
        forall|i: int| 0 <= i < batch.len() ==> #[trigger] batch[i] <= v,
        s + batch.len() < ladder.len() ==> ladder[s + batch.len()] > v,
    ensures
        s + batch.len() == spec_cover(ladder, if v > m_old { v } else { m_old }),
{
    lemma_cover_char(ladder, m_old);
    let n = batch.len() as int;
    let m_new = if v > m_old { v } else { m_old };
    if n > 0 {
        assert(batch[n - 1] == ladder[s + n - 1]);
        assert(ladder[s + n - 1] <= v);
    }
    lemma_cover_unique(ladder, m_new, s + n);
}

/// Runs one metric's monthly step: scans the ladder from the cursor,
/// reports every rung at or below the month's value into the group, and
/// advances the cursor to cover the raised running maximum.
fn step_metric(
    month: &mut Vec<MilestoneData>,
    t: MilestoneType,
    value: u32,
    ladder: &Vec<u32>,
    cursor: &mut Option<usize>,
    date: &Date,
    plugin_id: &Option<String>,
    Ghost(m_old): Ghost<int>,
)
    requires
        ladder@ == spec_type_ladder(t),
        forall|i: int, j: int| 0 <= i < j < ladder@.len() ==> ladder@[i] < ladder@[j],
        forall|i: int| 0 <= i < ladder@.len() ==> #[trigger] ladder@[i] >= 1,
        spec_cursor_start(*old(cursor)) == spec_cover(ladder@, m_old),
        0 <= spec_cursor_start(*old(cursor)) <= ladder@.len(),
        (*old(cursor) matches Option::Some(i) ==> i < ladder@.len()),
    ensures
        spec_cursor_start(*final(cursor)) == spec_cover(ladder@, if value > m_old {
            value as int
        } else {
            m_old
        }),
        0 <= spec_cursor_start(*final(cursor)) <= ladder@.len(),
        spec_cursor_start(*old(cursor)) <= spec_cursor_start(*final(cursor)),
        (*final(cursor) matches Option::Some(i) ==> i < ladder@.len()),
        group_values(final(month)@, t) == group_values(old(month)@, t) + ladder@.subrange(
            spec_cursor_start(*old(cursor)),
            spec_cursor_start(*final(cursor)),
        ),
        forall|t2: MilestoneType|
            t2 != t ==> group_values(final(month)@, t2) == group_values(old(month)@, t2),
        final(month)@.len() >= old(month)@.len(),
        forall|m: int| 0 <= m < old(month)@.len() ==> #[trigger] final(month)@[m]
            == old(month)@[m],
        forall|m: int|
            old(month)@.len() <= m < final(month)@.len() ==> {
                let md = #[trigger] final(month)@[m];
                &&& md.milestone_type == t
                &&& md.date == *date
                &&& md.milestone_value <= value
                &&& md.milestone_value == ladder@[spec_cursor_start(*old(cursor)) + (m - old(
                    month,
                )@.len())]
                &&& md.milestone_value >= 1
                &&& match (md.plugin_id, *plugin_id) {
                    (Option::Some(a), Option::Some(b)) => a@ == b@,
                    (Option::None, Option::None) => true,
                    _ => false,
                }
            },
{
    let ladder_len = ladder.len();
    let ghost s = spec_cursor_start(*cursor);
    let reached = check_milestones_reached(value, ladder, cursor);
    proof {
        lemma_cover_step(ladder@, m_old, value as int, s, reached@);
        assert(spec_cursor_start(*cursor) == s + reached@.len());
        assert(reached@ =~= ladder@.subrange(s, spec_cursor_start(*cursor)));
        assert(forall|i: int| 0 <= i < reached@.len() ==> #[trigger] reached@[i] == ladder@[s + i]);
    }
    append_reached(month, t, &reached, date, plugin_id);
}

/// Walks all four metrics through one month: evaluates each metric at the
/// date, reports the newly crossed rungs into a fresh group, and advances
/// each cursor to cover its raised running maximum.
#[verifier::rlimit(100)]
#[verifier::spinoff_prover]
fn walk_month(
    data: &PluginDataArray,
    view: &PluginDataArrayView,
    date: &Date,
    ladder_pc: &Vec<u32>,
    ladder_td: &Vec<u32>,
    ladder_rc: &Vec<u32>,
    ladder_dc: &Vec<u32>,
    cursor_pc: &mut Option<usize>,
    cursor_td: &mut Option<usize>,
    cursor_rc: &mut Option<usize>,
    cursor_dc: &mut Option<usize>,
    Ghost(start_date): Ghost<Date>,
    Ghost(k): Ghost<nat>,
) -> (month: Vec<MilestoneData>)
    requires
        view_wf(view.indices@, data.data@),
        array_wf(data.data@),
        view.indices@.len() <= 1_000_000,
        valid_date(*date),
        date.year <= 1_000_000,
        *date == spec_kth_month(start_date, k),
        forall|i: int|
            0 <= i < data.data@.len() ==> (#[trigger] data.data@[i]).data.version_history@.len()
                <= 1_000_000_000,
        ladder_pc@ == spec_type_ladder(MilestoneType::PluginCount),
        ladder_td@ == spec_type_ladder(MilestoneType::TotalDownloads),
        ladder_rc@ == spec_type_ladder(MilestoneType::ReleaseCount),
        ladder_dc@ == spec_type_ladder(MilestoneType::DownloadCount),
        forall|i: int, j: int| 0 <= i < j < ladder_pc@.len() ==> ladder_pc@[i] < ladder_pc@[j],
        forall|i: int, j: int| 0 <= i < j < ladder_td@.len() ==> ladder_td@[i] < ladder_td@[j],
        forall|i: int, j: int| 0 <= i < j < ladder_rc@.len() ==> ladder_rc@[i] < ladder_rc@[j],
        forall|i: int, j: int| 0 <= i < j < ladder_dc@.len() ==> ladder_dc@[i] < ladder_dc@[j],
        forall|i: int| 0 <= i < ladder_pc@.len() ==> #[trigger] ladder_pc@[i] >= 1,
        forall|i: int| 0 <= i < ladder_td@.len() ==> #[trigger] ladder_td@[i] >= 1,
        forall|i: int| 0 <= i < ladder_rc@.len() ==> #[trigger] ladder_rc@[i] >= 1,
        forall|i: int| 0 <= i < ladder_dc@.len() ==> #[trigger] ladder_dc@[i] >= 1,
        spec_cursor_start(*old(cursor_pc)) == spec_cover(
            ladder_pc@,
            spec_running_max(MilestoneType::PluginCount, data.data@, view.indices@, start_date, k),
        ),
        spec_cursor_start(*old(cursor_td)) == spec_cover(
            ladder_td@,
            spec_running_max(
                MilestoneType::TotalDownloads,
                data.data@,
                view.indices@,
                start_date,
                k,
            ),
        ),
        spec_cursor_start(*old(cursor_rc)) == spec_cover(
            ladder_rc@,
            spec_running_max(MilestoneType::ReleaseCount, data.data@, view.indices@, start_date, k),
        ),
        spec_cursor_start(*old(cursor_dc)) == spec_cover(
            ladder_dc@,
            spec_running_max(
                MilestoneType::DownloadCount,
                data.data@,
                view.indices@,
                start_date,
                k,
            ),
        ),
        0 <= spec_cursor_start(*old(cursor_pc)) <= ladder_pc@.len(),
        0 <= spec_cursor_start(*old(cursor_td)) <= ladder_td@.len(),
        0 <= spec_cursor_start(*old(cursor_rc)) <= ladder_rc@.len(),
        0 <= spec_cursor_start(*old(cursor_dc)) <= ladder_dc@.len(),
        (*old(cursor_pc) matches Option::Some(i) ==> i < ladder_pc@.len()),
        (*old(cursor_td) matches Option::Some(i) ==> i < ladder_td@.len()),
        (*old(cursor_rc) matches Option::Some(i) ==> i < ladder_rc@.len()),
        (*old(cursor_dc) matches Option::Some(i) ==> i < ladder_dc@.len()),
    ensures
        spec_cursor_start(*final(cursor_pc)) == spec_cover(
            ladder_pc@,
            spec_running_max(
                MilestoneType::PluginCount,
                data.data@,
                view.indices@,
                start_date,
                k + 1,
            ),
        ),
        spec_cursor_start(*final(cursor_td)) == spec_cover(
            ladder_td@,
            spec_running_max(
                MilestoneType::TotalDownloads,
                data.data@,
                view.indices@,
                start_date,
                k + 1,
            ),
        ),
        spec_cursor_start(*final(cursor_rc)) == spec_cover(
            ladder_rc@,
            spec_running_max(
                MilestoneType::ReleaseCount,
                data.data@,
                view.indices@,
                start_date,
                k + 1,
            ),
        ),
        spec_cursor_start(*final(cursor_dc)) == spec_cover(
            ladder_dc@,
            spec_running_max(
                MilestoneType::DownloadCount,
                data.data@,
                view.indices@,
                start_date,
                k + 1,
            ),
        ),
        0 <= spec_cursor_start(*final(cursor_pc)) <= ladder_pc@.len(),
        0 <= spec_cursor_start(*final(cursor_td)) <= ladder_td@.len(),
        0 <= spec_cursor_start(*final(cursor_rc)) <= ladder_rc@.len(),
        0 <= spec_cursor_start(*final(cursor_dc)) <= ladder_dc@.len(),
        (*final(cursor_pc) matches Option::Some(i) ==> i < ladder_pc@.len()),
        (*final(cursor_td) matches Option::Some(i) ==> i < ladder_td@.len()),
        (*final(cursor_rc) matches Option::Some(i) ==> i < ladder_rc@.len()),
        (*final(cursor_dc) matches Option::Some(i) ==> i < ladder_dc@.len()),
        spec_cursor_start(*old(cursor_pc)) <= spec_cursor_start(*final(cursor_pc)),
        spec_cursor_start(*old(cursor_td)) <= spec_cursor_start(*final(cursor_td)),
        spec_cursor_start(*old(cursor_rc)) <= spec_cursor_start(*final(cursor_rc)),
        spec_cursor_start(*old(cursor_dc)) <= spec_cursor_start(*final(cursor_dc)),
        group_values(month@, MilestoneType::PluginCount) == ladder_pc@.subrange(
            spec_cursor_start(*old(cursor_pc)),
            spec_cursor_start(*final(cursor_pc)),
        ),
        group_values(month@, MilestoneType::TotalDownloads) == ladder_td@.subrange(
            spec_cursor_start(*old(cursor_td)),
            spec_cursor_start(*final(cursor_td)),
        ),
        group_values(month@, MilestoneType::ReleaseCount) == ladder_rc@.subrange(
            spec_cursor_start(*old(cursor_rc)),
            spec_cursor_start(*final(cursor_rc)),
        ),
        group_values(month@, MilestoneType::DownloadCount) == ladder_dc@.subrange(
            spec_cursor_start(*old(cursor_dc)),
            spec_cursor_start(*final(cursor_dc)),
        ),
        forall|m: int|
            0 <= m < month@.len() ==> milestone_entry_ok(
                #[trigger] month@[m],
                data.data@,
                view.indices@,
            ) && month@[m].date == *date,
{
    let ghost datas = data.data@;
    let ghost idxs = view.indices@;
    let date = *date;
    let mut month: Vec<MilestoneData> = Vec::new();
    proof {
        assert(group_values(month@, MilestoneType::PluginCount) =~= Seq::<u32>::empty());
        assert(group_values(month@, MilestoneType::TotalDownloads) =~= Seq::<u32>::empty());
        assert(group_values(month@, MilestoneType::ReleaseCount) =~= Seq::<u32>::empty());
        assert(group_values(month@, MilestoneType::DownloadCount) =~= Seq::<u32>::empty());
    }
        let none_id: Option<String> = None;

        let plugin_count = get_plugin_count_at_date(&date, data, view);
        let ghost len0 = month@.len();
        proof {
            assert(spec_metric_value(MilestoneType::PluginCount, datas, idxs, date)
                == plugin_count);
        }
        let ghost s_pc = spec_cursor_start(*cursor_pc);
        step_metric(
            &mut month,
            MilestoneType::PluginCount,
            plugin_count,
            ladder_pc,
            cursor_pc,
            &date,
            &none_id,
            Ghost(spec_running_max(MilestoneType::PluginCount, datas, idxs, start_date, k)),
        );
        let ghost len1 = month@.len();

        let td_value = match get_total_downloads_at_date(&date, data, view) {
            Option::Some(total) => total,
            Option::None => {
                proof {
                    lemma_no_sample_zero(datas, idxs, day_index(date));
                }
                0
            },
        };
        proof {
            assert(spec_metric_value(MilestoneType::TotalDownloads, datas, idxs, date)
                == td_value);
        }
        step_metric(
            &mut month,
            MilestoneType::TotalDownloads,
            td_value,
            ladder_td,
            cursor_td,
            &date,
            &none_id,
            Ghost(
                spec_running_max(MilestoneType::TotalDownloads, datas, idxs, start_date, k),
            ),
        );
        let ghost len2 = month@.len();

        proof {
            lemma_max_release_char(datas, idxs, date);
        }
        let (rc_value, rc_id) = match get_max_release_count_at_date(&date, data, view) {
            Option::Some((count, id)) => (count, Some(id)),
            Option::None => (0, None),
        };
        proof {
            assert(rc_value == spec_max_release(datas, idxs, date));
        }
        step_metric(
            &mut month,
            MilestoneType::ReleaseCount,
            rc_value,
            ladder_rc,
            cursor_rc,
            &date,
            &rc_id,
            Ghost(spec_running_max(MilestoneType::ReleaseCount, datas, idxs, start_date, k)),
        );
        let ghost len3 = month@.len();

        proof {
            lemma_max_download_char(datas, idxs, date);
        }
        let (dc_value, dc_id) = match get_max_download_count_at_date(&date, data, view) {
            Option::Some((count, id)) => (count, Some(id)),
            Option::None => (0, None),
        };
        proof {
            assert(dc_value == spec_max_download(datas, idxs, date));
        }
        step_metric(
            &mut month,
            MilestoneType::DownloadCount,
            dc_value,
            ladder_dc,
            cursor_dc,
            &date,
            &dc_id,
            Ghost(
                spec_running_max(MilestoneType::DownloadCount, datas, idxs, start_date, k),
            ),
        );
        let ghost len4 = month@.len();

        proof {
            // every entry assembled this month is justified at this date:
            // the position tells which metric appended it
            assert forall|m: int| 0 <= m < month@.len() implies milestone_entry_ok(
                #[trigger] month@[m],
                datas,
                idxs,
            ) && month@[m].date == date by {
                let md = month@[m];
                if m < len1 {
                    assert(md.milestone_type == MilestoneType::PluginCount);
                    assert(md.milestone_value <= plugin_count);
                } else if m < len2 {
                    assert(md.milestone_type == MilestoneType::TotalDownloads);
                    assert(md.milestone_value <= td_value);
                } else if m < len3 {
                    assert(md.milestone_type == MilestoneType::ReleaseCount);
                    assert(md.milestone_value <= rc_value);
                    assert(md.milestone_value >= 1);
                    assert(rc_value >= 1);
                } else {
                    assert(md.milestone_type == MilestoneType::DownloadCount);
                    assert(md.milestone_value <= dc_value);
                    assert(md.milestone_value >= 1);
                    assert(dc_value >= 1);
                }
            }
        }
    month
}

/// Every group already reported is well formed: nonempty, each entry
/// justified at its own date, and labeled with its entries' month.
pub open spec fn groups_ok(
    groups: Seq<MilestoneMonthGroup>,
    datas: Seq<FullPluginData>,
    idxs: Seq<usize>,
) -> bool {
    forall|g: int|
        0 <= g < groups.len() ==> (#[trigger] groups[g]).milestones@.len() >= 1 && forall|m: int|
            0 <= m < groups[g].milestones@.len() ==> milestone_entry_ok(
                #[trigger] groups[g].milestones@[m],
                datas,
                idxs,
            ) && groups[g].month@ == spec_month_label(groups[g].milestones@[m].date)
}

/// Each group is pinned to the walked month it came from. The month indices
/// `ms` (counted from the walk's first month) strictly increase, so the
/// groups stand in chronological order; each group carries its month's
/// label and its entries its month's date; and for every metric the group
/// reports exactly the ladder rungs that month's raise of the running
/// maximum newly covered — a threshold is reported in the first walked
/// month whose value reaches it, never in a later month that merely still
/// supports it.
pub open spec fn spec_months_attributed(
    groups: Seq<MilestoneMonthGroup>,
    ms: Seq<int>,
    datas: Seq<FullPluginData>,
    idxs: Seq<usize>,
    start: Date,
) -> bool {
    &&& ms.len() == groups.len()
    &&& forall|g: int| 0 <= g < ms.len() ==> #[trigger] ms[g] >= 0
    &&& forall|g: int, h: int| 0 <= g < h < ms.len() ==> ms[g] < ms[h]
    &&& forall|g: int|
        0 <= g < groups.len() ==> (#[trigger] groups[g]).month@ == spec_month_label(
            spec_kth_month(start, ms[g] as nat),
        )
    &&& forall|g: int, m: int|
        0 <= g < groups.len() && 0 <= m < groups[g].milestones@.len() ==> (
        #[trigger] groups[g].milestones@[m]).date == spec_kth_month(start, ms[g] as nat)
    &&& forall|g: int, t: MilestoneType|
        0 <= g < groups.len() ==> #[trigger] group_values(groups[g].milestones@, t)
            == spec_type_ladder(t).subrange(
            spec_cover(
                spec_type_ladder(t),
                spec_running_max(t, datas, idxs, start, ms[g] as nat),
            ),
            spec_cover(
                spec_type_ladder(t),
                spec_running_max(t, datas, idxs, start, (ms[g] + 1) as nat),
            ),
        )
}

/// Closes one month: a month with crossings becomes a labeled group, an
/// empty month leaves the report untouched; either way each metric's
/// reported values grow to the new cursor prefix.
#[verifier::rlimit(100)]
#[verifier::spinoff_prover]
fn commit_month(
    groups: &mut Vec<MilestoneMonthGroup>,
    month: Vec<MilestoneData>,
    date: &Date,
    Ghost(datas): Ghost<Seq<FullPluginData>>,
    Ghost(idxs): Ghost<Seq<usize>>,
    Ghost(os_pc): Ghost<int>,
    Ghost(ns_pc): Ghost<int>,
    Ghost(os_td): Ghost<int>,
    Ghost(ns_td): Ghost<int>,
    Ghost(os_rc): Ghost<int>,
    Ghost(ns_rc): Ghost<int>,
    Ghost(os_dc): Ghost<int>,
    Ghost(ns_dc): Ghost<int>,
)
    requires
        groups_ok(old(groups)@, datas, idxs),
        0 <= os_pc <= ns_pc <= spec_type_ladder(MilestoneType::PluginCount).len(),
        0 <= os_td <= ns_td <= spec_type_ladder(MilestoneType::TotalDownloads).len(),
        0 <= os_rc <= ns_rc <= spec_type_ladder(MilestoneType::ReleaseCount).len(),
        0 <= os_dc <= ns_dc <= spec_type_ladder(MilestoneType::DownloadCount).len(),
        spec_reported(old(groups)@, MilestoneType::PluginCount) == spec_type_ladder(
            MilestoneType::PluginCount,
        ).subrange(0, os_pc),
        spec_reported(old(groups)@, MilestoneType::TotalDownloads) == spec_type_ladder(
            MilestoneType::TotalDownloads,
        ).subrange(0, os_td),
        spec_reported(old(groups)@, MilestoneType::ReleaseCount) == spec_type_ladder(
            MilestoneType::ReleaseCount,
        ).subrange(0, os_rc),
        spec_reported(old(groups)@, MilestoneType::DownloadCount) == spec_type_ladder(
            MilestoneType::DownloadCount,
        ).subrange(0, os_dc),
        group_values(month@, MilestoneType::PluginCount) == spec_type_ladder(
            MilestoneType::PluginCount,
        ).subrange(os_pc, ns_pc),
        group_values(month@, MilestoneType::TotalDownloads) == spec_type_ladder(
            MilestoneType::TotalDownloads,
        ).subrange(os_td, ns_td),
        group_values(month@, MilestoneType::ReleaseCount) == spec_type_ladder(
            MilestoneType::ReleaseCount,
        ).subrange(os_rc, ns_rc),
        group_values(month@, MilestoneType::DownloadCount) == spec_type_ladder(
            MilestoneType::DownloadCount,
        ).subrange(os_dc, ns_dc),
        forall|m: int|
            0 <= m < month@.len() ==> milestone_entry_ok(#[trigger] month@[m], datas, idxs)
                && month@[m].date == *date,
    ensures
        groups_ok(final(groups)@, datas, idxs),
        month@.len() > 0 ==> final(groups)@.len() == old(groups)@.len() + 1
            && final(groups)@[old(groups)@.len() as int].milestones@ == month@
            && final(groups)@[old(groups)@.len() as int].month@ == spec_month_label(*date),
        month@.len() == 0 ==> final(groups)@ == old(groups)@,
        forall|g: int|
            0 <= g < old(groups)@.len() ==> #[trigger] final(groups)@[g] == old(groups)@[g],
        spec_reported(final(groups)@, MilestoneType::PluginCount) == spec_type_ladder(
            MilestoneType::PluginCount,
        ).subrange(0, ns_pc),
        spec_reported(final(groups)@, MilestoneType::TotalDownloads) == spec_type_ladder(
            MilestoneType::TotalDownloads,
        ).subrange(0, ns_td),
        spec_reported(final(groups)@, MilestoneType::ReleaseCount) == spec_type_ladder(
            MilestoneType::ReleaseCount,
        ).subrange(0, ns_rc),
        spec_reported(final(groups)@, MilestoneType::DownloadCount) == spec_type_ladder(
            MilestoneType::DownloadCount,
        ).subrange(0, ns_dc),
{
    if month.len() > 0 {
        let ghost before = groups@;
        let ghost month_snapshot = month@;
        let month_string = month_label(date);
        groups.push(MilestoneMonthGroup { month: month_string, milestones: month });
        proof {
            assert(groups@.drop_last() =~= before);
            assert(groups@.last().milestones@ == month_snapshot);
            lemma_reported_push(before, groups@.last(), MilestoneType::PluginCount);
            lemma_reported_push(before, groups@.last(), MilestoneType::TotalDownloads);
            lemma_reported_push(before, groups@.last(), MilestoneType::ReleaseCount);
            lemma_reported_push(before, groups@.last(), MilestoneType::DownloadCount);
            lemma_prefix_extend(
                spec_type_ladder(MilestoneType::PluginCount),
                os_pc,
                ns_pc - os_pc,
            );
            lemma_prefix_extend(
                spec_type_ladder(MilestoneType::TotalDownloads),
                os_td,
                ns_td - os_td,
            );
            lemma_prefix_extend(
                spec_type_ladder(MilestoneType::ReleaseCount),
                os_rc,
                ns_rc - os_rc,
            );
            lemma_prefix_extend(
                spec_type_ladder(MilestoneType::DownloadCount),
                os_dc,
                ns_dc - os_dc,
            );
            assert(groups@.last().month@ == spec_month_label(*date));
            assert forall|g: int|
                0 <= g < groups@.len() implies (#[trigger] groups@[g]).milestones@.len() >= 1
                && forall|m: int|
                    0 <= m < groups@[g].milestones@.len() ==> milestone_entry_ok(
                        #[trigger] groups@[g].milestones@[m],
                        datas,
                        idxs,
                    ) && groups@[g].month@ == spec_month_label(
                        groups@[g].milestones@[m].date,
                    ) by {
                if g < before.len() {
                    assert(groups@[g] == before[g]);
                } else {
                    assert(groups@[g] == groups@.last());
                }
            }
        }
    } else {
        proof {
            assert(month@ =~= Seq::<MilestoneData>::empty());
            assert(group_values(month@, MilestoneType::PluginCount) =~= Seq::<u32>::empty());
            assert(group_values(month@, MilestoneType::TotalDownloads) =~= Seq::<u32>::empty());
            assert(group_values(month@, MilestoneType::ReleaseCount) =~= Seq::<u32>::empty());
            assert(group_values(month@, MilestoneType::DownloadCount) =~= Seq::<u32>::empty());
            assert(ns_pc == os_pc);
            assert(ns_td == os_td);
            assert(ns_rc == os_rc);
            assert(ns_dc == os_dc);
        }
    }
}

#[verifier::rlimit(100)]
#[verifier::spinoff_prover]
#[verifier::loop_isolation(true)]
pub fn calculate_milestones(data: &PluginDataArray, view: &PluginDataArrayView, end: &Date) -> (r:
    Vec<MilestoneMonthGroup>)
    requires
        view_wf(view.indices@, data.data@),
        array_wf(data.data@),
        valid_date(*end),
        end.year <= 1_000_000,
        view.indices@.len() <= 1_000_000,
        forall|i: int|
            0 <= i < data.data@.len() ==> (#[trigger] data.data@[i]).data.version_history@.len()
                <= 1_000_000_000,
    ensures
        forall|t: MilestoneType| #[trigger]
            spec_reported(r@, t) == spec_type_ladder(t).subrange(
                0,
                spec_cover(
                    spec_type_ladder(t),
                    spec_running_max(
                        t,
                        data.data@,
                        view.indices@,
                        (Date { year: 2020, month: 1, day: 1 }),
                        spec_num_months((Date { year: 2020, month: 1, day: 1 }), *end),
                    ),
                ),
            ),
        forall|g: int|
            0 <= g < r@.len() ==> (#[trigger] r@[g]).milestones@.len() >= 1 && forall|m: int|
                0 <= m < r@[g].milestones@.len() ==> milestone_entry_ok(
                    #[trigger] r@[g].milestones@[m],
                    data.data@,
                    view.indices@,
                ) && r@[g].month@ == spec_month_label(r@[g].milestones@[m].date),
        exists|ms: Seq<int>|
            #[trigger] spec_months_attributed(
                r@,
                ms,
                data.data@,
                view.indices@,
                (Date { year: 2020, month: 1, day: 1 }),
            ) && forall|g: int|
                0 <= g < ms.len() ==> #[trigger] ms[g] < spec_num_months(
                    (Date { year: 2020, month: 1, day: 1 }),
                    *end,
                ),
{
    let start_date = Date { year: 2020, month: 1, day: 1 };
    let dates = start_date.iterate_monthly_to(end);
    let mut groups: Vec<MilestoneMonthGroup> = Vec::new();
    let mut cursor_pc: Option<usize> = None;
    let mut cursor_td: Option<usize> = None;
    let mut cursor_rc: Option<usize> = None;
    let mut cursor_dc: Option<usize> = None;
    let ladder_pc = get_milestones_for_type(MilestoneType::PluginCount);
    let ladder_td = get_milestones_for_type(MilestoneType::TotalDownloads);
    let ladder_rc = get_milestones_for_type(MilestoneType::ReleaseCount);
    let ladder_dc = get_milestones_for_type(MilestoneType::DownloadCount);
    let len_pc = ladder_pc.len();
    let len_td = ladder_td.len();
    let len_rc = ladder_rc.len();
    let len_dc = ladder_dc.len();
    let ghost datas = data.data@;
    let ghost idxs = view.indices@;
    let ghost mut ms: Seq<int> = Seq::empty();
    let mut k: usize = 0;
    proof {
        // every rung is positive, so a zero metric value never reaches one
        lemma_ladder_increasing(2, 6);
        lemma_ladder_increasing(4, 10);
        lemma_ladder_increasing(1, 6);
        lemma_ladder_increasing(3, 10);
        lemma_pow10_pos(2);
        lemma_pow10_pos(4);
        lemma_pow10_pos(1);
        lemma_pow10_pos(3);
        // before any month, nothing is covered
        lemma_cover_unique(ladder_pc@, -1, 0);
        lemma_cover_unique(ladder_td@, -1, 0);
        lemma_cover_unique(ladder_rc@, -1, 0);
        lemma_cover_unique(ladder_dc@, -1, 0);
        assert(spec_type_ladder(MilestoneType::PluginCount).subrange(0, 0) =~= Seq::<
            u32,
        >::empty());
        assert(spec_type_ladder(MilestoneType::TotalDownloads).subrange(0, 0) =~= Seq::<
            u32,
        >::empty());
        assert(spec_type_ladder(MilestoneType::ReleaseCount).subrange(0, 0) =~= Seq::<
            u32,
        >::empty());
        assert(spec_type_ladder(MilestoneType::DownloadCount).subrange(0, 0) =~= Seq::<
            u32,
        >::empty());
    }
    while k < dates.len()
        invariant
            k <= dates@.len(),
            view_wf(view.indices@, data.data@),
            array_wf(data.data@),
            datas == data.data@,
            idxs == view.indices@,
            view.indices@.len() <= 1_000_000,
            start_date == (Date { year: 2020, month: 1, day: 1 }),
            forall|i: int|
                0 <= i < data.data@.len() ==> (
                #[trigger] data.data@[i]).data.version_history@.len() <= 1_000_000_000,
            forall|i: int|
                0 <= i < dates@.len() ==> valid_date(#[trigger] dates@[i]) && dates@[i].year
                    <= 1_000_000,
            dates@.len() > 0 ==> dates@[0] == start_date,
            forall|i: int|
                1 <= i < dates@.len() ==> #[trigger] dates@[i] == crate::date::spec_next_month(
                    dates@[i - 1],
                ),
            forall|i: int| 0 <= i < k ==> #[trigger] dates@[i] == spec_kth_month(
                start_date,
                i as nat,
            ),
            ladder_pc@ == spec_type_ladder(MilestoneType::PluginCount),
            ladder_td@ == spec_type_ladder(MilestoneType::TotalDownloads),
            ladder_rc@ == spec_type_ladder(MilestoneType::ReleaseCount),
            ladder_dc@ == spec_type_ladder(MilestoneType::DownloadCount),
            ladder_pc@.len() == len_pc,
            ladder_td@.len() == len_td,
            ladder_rc@.len() == len_rc,
            ladder_dc@.len() == len_dc,
            forall|i: int, j: int| 0 <= i < j < ladder_pc@.len() ==> ladder_pc@[i] < ladder_pc@[j],
            forall|i: int, j: int| 0 <= i < j < ladder_td@.len() ==> ladder_td@[i] < ladder_td@[j],
            forall|i: int, j: int| 0 <= i < j < ladder_rc@.len() ==> ladder_rc@[i] < ladder_rc@[j],
            forall|i: int, j: int| 0 <= i < j < ladder_dc@.len() ==> ladder_dc@[i] < ladder_dc@[j],
            forall|i: int| 0 <= i < ladder_pc@.len() ==> #[trigger] ladder_pc@[i] >= 1,
            forall|i: int| 0 <= i < ladder_td@.len() ==> #[trigger] ladder_td@[i] >= 1,
            forall|i: int| 0 <= i < ladder_rc@.len() ==> #[trigger] ladder_rc@[i] >= 1,
            forall|i: int| 0 <= i < ladder_dc@.len() ==> #[trigger] ladder_dc@[i] >= 1,
            cursor_ok(groups@, MilestoneType::PluginCount, cursor_pc),
            cursor_ok(groups@, MilestoneType::TotalDownloads, cursor_td),
            cursor_ok(groups@, MilestoneType::ReleaseCount, cursor_rc),
            cursor_ok(groups@, MilestoneType::DownloadCount, cursor_dc),
            spec_cursor_start(cursor_pc) == spec_cover(
                ladder_pc@,
                spec_running_max(MilestoneType::PluginCount, datas, idxs, start_date, k as nat),
            ),
            spec_cursor_start(cursor_td) == spec_cover(
                ladder_td@,
                spec_running_max(MilestoneType::TotalDownloads, datas, idxs, start_date, k as nat),
            ),
            spec_cursor_start(cursor_rc) == spec_cover(
                ladder_rc@,
                spec_running_max(MilestoneType::ReleaseCount, datas, idxs, start_date, k as nat),
            ),
            spec_cursor_start(cursor_dc) == spec_cover(
                ladder_dc@,
                spec_running_max(MilestoneType::DownloadCount, datas, idxs, start_date, k as nat),
            ),
            groups_ok(groups@, datas, idxs),
            spec_months_attributed(groups@, ms, datas, idxs, start_date),
            forall|g: int| 0 <= g < ms.len() ==> #[trigger] ms[g] < k,
        decreases dates@.len() - k,
    {
        proof {
            if k > 0 {
                assert(dates@[k as int] == crate::date::spec_next_month(dates@[k - 1]));
                assert(dates@[k - 1] == spec_kth_month(start_date, (k - 1) as nat));
            }
            assert(dates@[k as int] == spec_kth_month(start_date, k as nat));
        }
        let date = dates[k];
        let ghost os_pc = spec_cursor_start(cursor_pc);
        let ghost os_td = spec_cursor_start(cursor_td);
        let ghost os_rc = spec_cursor_start(cursor_rc);
        let ghost os_dc = spec_cursor_start(cursor_dc);
        let month = walk_month(
            data,
            view,
            &date,
            &ladder_pc,
            &ladder_td,
            &ladder_rc,
            &ladder_dc,
            &mut cursor_pc,
            &mut cursor_td,
            &mut cursor_rc,
            &mut cursor_dc,
            Ghost(start_date),
            Ghost(k as nat),
        );
        let ghost month_view = month@;
        let ghost pre_groups = groups@;
        let ghost pre_ms = ms;
        commit_month(
            &mut groups,
            month,
            &date,
            Ghost(datas),
            Ghost(idxs),
            Ghost(os_pc),
            Ghost(spec_cursor_start(cursor_pc)),
            Ghost(os_td),
            Ghost(spec_cursor_start(cursor_td)),
            Ghost(os_rc),
            Ghost(spec_cursor_start(cursor_rc)),
            Ghost(os_dc),
            Ghost(spec_cursor_start(cursor_dc)),
        );
        proof {
            // a nonempty month appends one group, pinned to month index k
            if month_view.len() > 0 {
                ms = ms.push(k as int);
                assert(ms[pre_ms.len() as int] == k as int);
                assert(forall|g: int| 0 <= g < pre_ms.len() ==> #[trigger] ms[g] == pre_ms[g]);
                assert(groups@[pre_groups.len() as int].milestones@ == month_view);
                assert forall|g: int, t: MilestoneType|
                    0 <= g < groups@.len() implies #[trigger] group_values(
                    groups@[g].milestones@,
                    t,
                ) == spec_type_ladder(t).subrange(
                    spec_cover(
                        spec_type_ladder(t),
                        spec_running_max(t, datas, idxs, start_date, ms[g] as nat),
                    ),
                    spec_cover(
                        spec_type_ladder(t),
                        spec_running_max(t, datas, idxs, start_date, (ms[g] + 1) as nat),
                    ),
                ) by {
                    if g < pre_groups.len() {
                        assert(groups@[g] == pre_groups[g]);
                        assert(ms[g] == pre_ms[g]);
                        assert(group_values(pre_groups[g].milestones@, t) == spec_type_ladder(
                            t,
                        ).subrange(
                            spec_cover(
                                spec_type_ladder(t),
                                spec_running_max(t, datas, idxs, start_date, pre_ms[g] as nat),
                            ),
                            spec_cover(
                                spec_type_ladder(t),
                                spec_running_max(
                                    t,
                                    datas,
                                    idxs,
                                    start_date,
                                    (pre_ms[g] + 1) as nat,
                                ),
                            ),
                        ));
                    } else {
                        assert(groups@[g].milestones@ == month_view);
                        assert(ms[g] == k as int);
                        match t {
                            MilestoneType::PluginCount => {
                                assert(group_values(month_view, t) == ladder_pc@.subrange(
                                    os_pc,
                                    spec_cursor_start(cursor_pc),
                                ));
                            },
                            MilestoneType::TotalDownloads => {
                                assert(group_values(month_view, t) == ladder_td@.subrange(
                                    os_td,
                                    spec_cursor_start(cursor_td),
                                ));
                            },
                            MilestoneType::ReleaseCount => {
                                assert(group_values(month_view, t) == ladder_rc@.subrange(
                                    os_rc,
                                    spec_cursor_start(cursor_rc),
                                ));
                            },
                            MilestoneType::DownloadCount => {
                                assert(group_values(month_view, t) == ladder_dc@.subrange(
                                    os_dc,
                                    spec_cursor_start(cursor_dc),
                                ));
                            },
                        }
                    }
                }
                assert forall|g: int| 0 <= g < groups@.len() implies (
                #[trigger] groups@[g]).month@ == spec_month_label(
                    spec_kth_month(start_date, ms[g] as nat),
                ) by {
                    if g < pre_groups.len() {
                        assert(groups@[g] == pre_groups[g]);
                        assert(ms[g] == pre_ms[g]);
                    } else {
                        assert(groups@[g].month@ == spec_month_label(date));
                    }
                }
                assert forall|g: int, m: int|
                    0 <= g < groups@.len() && 0 <= m < groups@[g].milestones@.len() implies (
                #[trigger] groups@[g].milestones@[m]).date == spec_kth_month(
                    start_date,
                    ms[g] as nat,
                ) by {
                    if g < pre_groups.len() {
                        assert(groups@[g] == pre_groups[g]);
                        assert(ms[g] == pre_ms[g]);
                    } else {
                        assert(groups@[g].milestones@ == month_view);
                        assert(month_view[m].date == date);
                    }
                }
            } else {
                assert(groups@ == pre_groups);
            }
        }
        k = k + 1;
    }
    proof {
        lemma_iterate_month_count(dates@, start_date, *end);
        assert(k == spec_num_months(start_date, *end));
        assert forall|t: MilestoneType| #[trigger]
            spec_reported(groups@, t) == spec_type_ladder(t).subrange(
                0,
                spec_cover(
                    spec_type_ladder(t),
                    spec_running_max(t, datas, idxs, start_date, spec_num_months(
                        start_date,
                        *end,
                    )),
                ),
            ) by {
            match t {
                MilestoneType::PluginCount => {},
                MilestoneType::TotalDownloads => {},
                MilestoneType::ReleaseCount => {},
                MilestoneType::DownloadCount => {},
            }
        }
        // the walked month indices witness the attribution
        assert(spec_months_attributed(groups@, ms, datas, idxs, start_date));
        assert(exists|ms2: Seq<int>|
            #[trigger] spec_months_attributed(groups@, ms2, datas, idxs, start_date) && forall|
                g: int,
            |
                0 <= g < ms2.len() ==> #[trigger] ms2[g] < spec_num_months(start_date, *end));
    }
    groups
}

/// Joining two adjacent index ranges of the ladder.
proof fn lemma_prefix_extend(ladder: Seq<u32>, a: int, n: int)
    requires
        0 <= a,
        0 <= n,
        a + n <= ladder.len(),
    ensures
        ladder.subrange(0, a) + ladder.subrange(a, a + n) =~= ladder.subrange(0, a + n),
{
}

/// Reported values after appending one month's group.
proof fn lemma_reported_push(
    groups: Seq<MilestoneMonthGroup>,
    g: MilestoneMonthGroup,
    t: MilestoneType,
)
    ensures
        spec_reported(groups.push(g), t) == spec_reported(groups, t) + group_values(
            g.milestones@,
            t,
        ),
{
    assert(groups.push(g).drop_last() =~= groups);
    assert(groups.push(g).last() == g);
}

/// The label of one month: the zero-padded year and month.
fn month_label(date: &Date) -> (r: String)
    ensures
        r@ == crate::digits::dec_repr_pad(date.year as nat, 4) + "-"@ + crate::digits::dec_repr_pad(
            date.month as nat,
            2,
        ),
{
    let mut s = crate::digits::u32_to_dec_pad(date.year, 4);
    crate::digits::push_char(&mut s, '-');
    let m = crate::digits::u32_to_dec_pad(date.month, 2);
    s.append(m.as_str());
    proof {
        reveal_strlit("-");
        assert(s@ =~= crate::digits::dec_repr_pad(date.year as nat, 4) + "-"@
            + crate::digits::dec_repr_pad(date.month as nat, 2));
    }
    s
}

/// Law: thresholds reported by two successive scans of one strictly
/// increasing ladder never overlap — once a threshold is reported it is
/// never reported again, even if the metric later drops below it and rises
/// again. The batches are consecutive index ranges of the ladder, so every
/// value of the second batch is strictly greater than every value of the
/// first.
pub proof fn lemma_milestones_never_rereported(
    ladder: Seq<u32>,
    start1: int,
    len1: int,
    start2: int,
    len2: int,
)
    requires
        forall|i: int, j: int| 0 <= i < j < ladder.len() ==> ladder[i] < ladder[j],
        0 <= start1,
        0 <= len1,
        0 <= len2,
        start1 + len1 <= start2,
        start2 + len2 <= ladder.len(),
    ensures
        forall|a: int, b: int|
            0 <= a < len1 && 0 <= b < len2 ==> #[trigger] ladder.subrange(start1, start1 + len1)[a]
                < #[trigger] ladder.subrange(start2, start2 + len2)[b],
{
    assert forall|a: int, b: int|
        0 <= a < len1 && 0 <= b < len2 implies #[trigger] ladder.subrange(start1, start1 + len1)[a]
        < #[trigger] ladder.subrange(start2, start2 + len2)[b] by {
        assert(ladder.subrange(start1, start1 + len1)[a] == ladder[start1 + a]);
        assert(ladder.subrange(start2, start2 + len2)[b] == ladder[start2 + b]);
    }
}

} // verus!
