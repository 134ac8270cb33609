//! Statistics over many dives.
//!
//! [`StatsData::update_with_dive_data`] folds one dive's statistics into the
//! running totals. The fold is a commutative monoid action: the totals do not
//! depend on the order in which dives arrive, so dives processed concurrently
//! can be merged as they finish, one merge at a time.
use vstd::prelude::*;

use crate::common::{table_view, Depth, Seconds, GF};
use crate::dive::{Dive, DiveView};

verus! {

/// Statistics over all dives merged so far.
#[derive(Clone, Debug, PartialEq)]
pub struct StatsData {
    pub dives_no: usize,
    pub total_time: Seconds,
    pub depth_max: Depth,
    pub time_in_deco: Seconds,
    /// Number of dives with some time in decompression.
    pub deco_dives_no: usize,
    pub gf_surf_max: GF,
    pub gf_99_max: GF,
    pub gf_end_max: GF,
    /// Seconds at or below each threshold depth, thresholds in order of first
    /// appearance.
    pub time_below: Vec<(Depth, Seconds)>,
}

/// Statistics over dives as mathematical integers.
pub struct StatsView {
    pub dives_no: nat,
    pub total_time: nat,
    pub depth_max: nat,
    pub time_in_deco: nat,
    pub deco_dives_no: nat,
    pub gf_surf_max: nat,
    pub gf_99_max: nat,
    pub gf_end_max: nat,
    pub time_below: Seq<(nat, nat)>,
}

impl View for StatsData {
    type V = StatsView;

    open spec fn view(&self) -> StatsView {
        StatsView {
            dives_no: self.dives_no as nat,
            total_time: self.total_time as nat,
            depth_max: self.depth_max as nat,
            time_in_deco: self.time_in_deco as nat,
            deco_dives_no: self.deco_dives_no as nat,
            gf_surf_max: self.gf_surf_max as nat,
            gf_99_max: self.gf_99_max as nat,
            gf_end_max: self.gf_end_max as nat,
            time_below: table_view(self.time_below@),
        }
    }
}

/// The greater of two naturals.
pub open spec fn max_nat(a: nat, b: nat) -> nat {
    if a >= b {
        a
    } else {
        b
    }
}

/// Index of the first entry of a table with depth `k`, if there is one.
pub open spec fn index_of(g: Seq<(nat, nat)>, k: nat) -> Option<int> {
    if exists|j: int| is_first_key(g, k, j) {
        Some(choose|j: int| is_first_key(g, k, j))
    } else {
        None
    }
}

/// Entry `j` is the first one with depth `k`.
pub open spec fn is_first_key(g: Seq<(nat, nat)>, k: nat, j: int) -> bool {
    &&& 0 <= j < g.len()
    &&& g[j].0 == k
    &&& forall|m: int| 0 <= m < j ==> #[trigger] g[m].0 != k
}

/// Adds the seconds of entry `e` to the first entry of `g` with its depth, or
/// appends `e` when `g` has none.
pub open spec fn add_time(g: Seq<(nat, nat)>, e: (nat, nat)) -> Seq<(nat, nat)> {
    match index_of(g, e.0) {
        Some(j) => g.update(j, (e.0, g[j].1 + e.1)),
        None => g.push(e),
    }
}

/// Adds every entry of `d`, in order, into `g`.
pub open spec fn merge_table(g: Seq<(nat, nat)>, d: Seq<(nat, nat)>) -> Seq<(nat, nat)>
    decreases d.len(),
{
    if d.len() == 0 {
        g
    } else {
        add_time(merge_table(g, d.drop_last()), d.last())
    }
}

/// The statistics after one more dive.
pub open spec fn merge_view(s: StatsView, d: DiveView) -> StatsView {
    StatsView {
        dives_no: s.dives_no + 1,
        total_time: s.total_time + d.total_time,
        depth_max: max_nat(s.depth_max, d.depth_max),
        time_in_deco: s.time_in_deco + d.time_in_deco,
        deco_dives_no: if d.time_in_deco > 0 {
            s.deco_dives_no + 1
        } else {
            s.deco_dives_no
        },
        gf_surf_max: max_nat(s.gf_surf_max, d.gf_surf_max),
        gf_99_max: max_nat(s.gf_99_max, d.gf_99_max),
        gf_end_max: max_nat(s.gf_end_max, d.gf_end),
        time_below: merge_table(s.time_below, d.time_below),
    }
}

/// The statistics with no dive merged: all zero, no threshold.
pub open spec fn empty_view() -> StatsView {
    StatsView {
        dives_no: 0,
        total_time: 0,
        depth_max: 0,
        time_in_deco: 0,
        deco_dives_no: 0,
        gf_surf_max: 0,
        gf_99_max: 0,
        gf_end_max: 0,
        time_below: Seq::empty(),
    }
}

impl StatsView {
    /// Every number fits the machine integer that holds it.
    pub open spec fn fits(self) -> bool {
        &&& self.dives_no <= usize::MAX
        &&& self.deco_dives_no <= usize::MAX
        &&& self.total_time <= u64::MAX
        &&& self.depth_max <= u64::MAX
        &&& self.time_in_deco <= u64::MAX
        &&& self.gf_surf_max <= u64::MAX
        &&& self.gf_99_max <= u64::MAX
        &&& self.gf_end_max <= u64::MAX
        &&& table_fits(self.time_below)
    }
}

/// Why a dive could not be merged.
#[derive(Clone, Copy, Debug, PartialEq, Eq, Structural)]
pub enum AggregationError {
    /// A total would exceed what its machine integer holds.
    Overflow,
}

/// Every entry of a table fits a pair of `u64`.
pub open spec fn table_fits(t: Seq<(nat, nat)>) -> bool {
    forall|j: int| #![trigger t[j]] 0 <= j < t.len() ==> t[j].0 <= u64::MAX && t[j].1 <= u64::MAX
}

pub(crate) proof fn lemma_index_of_first(g: Seq<(nat, nat)>, k: nat, j: int)
    requires
        is_first_key(g, k, j),
    ensures
        index_of(g, k) == Some(j),
{
    let c = choose|c: int| is_first_key(g, k, c);
    assert(is_first_key(g, k, c));
    if c < j {
        assert(g[c].0 != k);
    } else if c > j {
        assert(g[j].0 != k);
    }
}

pub(crate) proof fn lemma_index_of_absent(g: Seq<(nat, nat)>, k: nat)
    requires
        forall|m: int| 0 <= m < g.len() ==> #[trigger] g[m].0 != k,
    ensures
        index_of(g, k) is None,
{
    assert(!exists|j: int| is_first_key(g, k, j));
}

proof fn lemma_index_of_in_range(g: Seq<(nat, nat)>, k: nat)
    ensures
        match index_of(g, k) {
            Some(j) => is_first_key(g, k, j),
            None => forall|m: int| 0 <= m < g.len() ==> #[trigger] g[m].0 != k,
        },
{
    match index_of(g, k) {
        Some(j) => {},
        None => {
            assert forall|m: int| 0 <= m < g.len() implies #[trigger] g[m].0 != k by {
                if g[m].0 == k {
                    lemma_first_key_exists(g, k, m);
                }
            }
        },
    }
}

/// Where some entry has depth `k`, a first one has.
proof fn lemma_first_key_exists(g: Seq<(nat, nat)>, k: nat, m: int)
    requires
        0 <= m < g.len(),
        g[m].0 == k,
    ensures
        exists|j: int| is_first_key(g, k, j),
    decreases m,
{
    if exists|i: int| 0 <= i < m && g[i].0 == k {
        let i = choose|i: int| 0 <= i < m && g[i].0 == k;
        lemma_first_key_exists(g, k, i);
    } else {
        assert(is_first_key(g, k, m));
    }
}

/// Merging more entries never shortens a table nor lowers any of its times.
proof fn lemma_merge_table_grows(g: Seq<(nat, nat)>, d: Seq<(nat, nat)>, p: int, q: int)
    requires
        0 <= p <= q <= d.len(),
    ensures
        merge_table(g, d.take(p)).len() <= merge_table(g, d.take(q)).len(),
        forall|j: int|
            0 <= j < merge_table(g, d.take(p)).len() ==> #[trigger] merge_table(g, d.take(q))[j].1
                >= merge_table(g, d.take(p))[j].1,
    decreases q - p,
{
    if p < q {
        lemma_merge_table_grows(g, d, p, q - 1);
        assert(d.take(q).drop_last() =~= d.take(q - 1));
        let prev = merge_table(g, d.take(q - 1));
        lemma_index_of_in_range(prev, d[q - 1].0);
    }
}

impl StatsData {
    /// No dive merged yet.
    pub fn new() -> (r: StatsData)
        ensures
            r@ == empty_view(),
    {
        let r = StatsData {
            dives_no: 0,
            total_time: 0,
            depth_max: 0,
            time_in_deco: 0,
            deco_dives_no: 0,
            gf_surf_max: 0,
            gf_99_max: 0,
            gf_end_max: 0,
            time_below: Vec::new(),
        };
        assert(r@.time_below =~= Seq::<(nat, nat)>::empty());
        r
    }

    /// Merges one dive's statistics into these.
    ///
    /// Fails, leaving the statistics as they were, exactly when a total would
    /// not fit its machine integer.
    pub fn update_with_dive_data(&mut self, dive: Dive) -> (r: Result<(), AggregationError>)
        ensures
            r is Ok <==> merge_view(old(self)@, dive@).fits(),
            r is Ok ==> final(self)@ == merge_view(old(self)@, dive@),
            r is Err ==> *final(self) == *old(self),
    {
        let ghost merged = merge_view(self@, dive@);
        if self.dives_no == usize::MAX || self.total_time > u64::MAX - dive.total_time
            || self.time_in_deco > u64::MAX - dive.time_in_deco || (dive.time_in_deco > 0
            && self.deco_dives_no == usize::MAX) {
            return Err(AggregationError::Overflow);
        }
        let time_below = match merge_time_below(&self.time_below, &dive.time_below) {
            Some(v) => v,
            None => {
                assert(!table_fits(merged.time_below));
                return Err(AggregationError::Overflow);
            },
        };
        self.dives_no = self.dives_no + 1;
        self.total_time = self.total_time + dive.total_time;
        if dive.depth_max > self.depth_max {
            self.depth_max = dive.depth_max;
        }
        if dive.time_in_deco > 0 {
            self.time_in_deco = self.time_in_deco + dive.time_in_deco;
            self.deco_dives_no = self.deco_dives_no + 1;
        }
        if dive.gf_surf_max > self.gf_surf_max {
            self.gf_surf_max = dive.gf_surf_max;
        }
        if dive.gf_99_max > self.gf_99_max {
            self.gf_99_max = dive.gf_99_max;
        }
        if dive.gf_end > self.gf_end_max {
            self.gf_end_max = dive.gf_end;
        }
        self.time_below = time_below;
        assert(self@ == merged);
        Ok(())
    }
}

/// Adds each entry of `d`, in order, to the first entry of `g` with the same
/// depth, appending it where `g` has none; `None` when a time would not fit.
fn merge_time_below(g: &Vec<(Depth, Seconds)>, d: &Vec<(Depth, Seconds)>) -> (r: Option<
    Vec<(Depth, Seconds)>,
>)
    ensures
        match r {
            Some(v) => table_view(v@) == merge_table(table_view(g@), table_view(d@)),
            None => !table_fits(merge_table(table_view(g@), table_view(d@))),
        },
{
    let ghost gv = table_view(g@);
    let ghost dv = table_view(d@);
    let mut acc: Vec<(Depth, Seconds)> = Vec::new();
    let mut c: usize = 0;
    while c < g.len()
        invariant
            c <= g@.len(),
            acc@ =~= g@.take(c as int),
        decreases g.len() - c,
    {
        acc.push(g[c]);
        c = c + 1;
    }
    assert(acc@ =~= g@);
    assert(dv.take(0) =~= Seq::<(nat, nat)>::empty());
    let mut i: usize = 0;
    while i < d.len()
        invariant
            i <= d@.len(),
            gv == table_view(g@),
            dv == table_view(d@),
            table_view(acc@) == merge_table(gv, dv.take(i as int)),
        decreases d.len() - i,
    {
        let (k, t) = d[i];
        assert(dv.take(i + 1).drop_last() =~= dv.take(i as int));
        assert(dv.take(i + 1).last() == (k as nat, t as nat));
        let ghost av = table_view(acc@);
        let mut j: usize = 0;
        let mut found = false;
        while j < acc.len() && !found
            invariant
                j <= acc@.len(),
                av == table_view(acc@),
                found ==> j < acc@.len() && acc@[j as int].0 == k,
                forall|m: int| 0 <= m < j && !(found && m == j) ==> #[trigger] av[m].0 != k as nat,
            decreases acc.len() - j + if found { 0int } else { 1int },
        {
            if acc[j].0 == k {
                found = true;
            } else {
                j = j + 1;
            }
        }
        if found {
            proof {
                lemma_index_of_first(av, k as nat, j as int);
            }
            let (_, v) = acc[j];
            if v > u64::MAX - t {
                proof {
                    lemma_merge_table_grows(gv, dv, i + 1, dv.len() as int);
                    assert(dv.take(dv.len() as int) =~= dv);
                    assert(merge_table(gv, dv.take(i + 1))[j as int].1 > u64::MAX);
                    assert(j < merge_table(gv, dv.take(i + 1)).len());
                    assert(j < merge_table(gv, dv).len());
                    assert(merge_table(gv, dv)[j as int].1 > u64::MAX);
                    assert(!table_fits(merge_table(gv, dv)));
                }
                return None;
            }
            acc.set(j, (k, v + t));
            assert(table_view(acc@) =~= av.update(j as int, (k as nat, (av[j as int].1 + t) as nat)));
        } else {
            proof {
                lemma_index_of_absent(av, k as nat);
            }
            acc.push((k, t));
            assert(table_view(acc@) =~= av.push((k as nat, t as nat)));
        }
        i = i + 1;
    }
    assert(dv.take(d@.len() as int) =~= dv);
    Some(acc)
}

/// A duration as (hours, minutes, seconds), minutes and seconds under sixty.
pub fn seconds_to_readable(s: Seconds) -> (r: (u64, u64, u64))
    ensures
        r == (s / 3600, (s / 60) % 60, s % 60),
        r.0 * 3600 + r.1 * 60 + r.2 == s,
{
    let seconds = s % 60;
    let minutes = (s / 60) % 60;
    let hours = (s / 60) / 60;
    assert(hours == s / 3600 && hours * 3600 + minutes * 60 + seconds == s) by (nonlinear_arith)
        requires
            seconds == s % 60,
            minutes == (s / 60) % 60,
            hours == (s / 60) / 60,
    ;
    (hours, minutes, seconds)
}

/// A gradient factor in whole percent, halves rounded up.
pub fn gf_whole_percent(gf: GF) -> (r: u64)
    ensures
        r == (gf + 50) / 100,
{
    gf / 100 + if gf % 100 >= 50 {
        1
    } else {
        0
    }
}

} // verus!
