//! Per-dive statistics.
//!
//! A dive is walked waypoint by waypoint. [`plan_steps`] works out, for each
//! waypoint, what the decompression model is to be stepped with (depth, time
//! since the previous waypoint, gas breathed), resolving gas switches on the
//! way. The model itself runs outside the library; what it reports after each
//! step (ceiling and gradient factors) comes back as a [`ModelReading`], and
//! [`Dive::calc_dive_stats`] folds steps and readings into a summary.
use vstd::prelude::*;

use crate::common::{table_view, Depth, Gas, GradientFactorsSetting, Seconds, GF};
use crate::samples::{gas_by_ref, gas_is_valid, mix_by_id, Mix, SampleElem, WaypointElem};

verus! {

/// One step of the decompression model: stay at `depth` for `time` seconds
/// breathing `gas`.
#[derive(Clone, Copy, Debug, PartialEq, Eq, Structural)]
pub struct ModelStep {
    pub depth: Depth,
    pub time: Seconds,
    pub gas: Gas,
}

/// What the decompression model reports right after a step.
#[derive(Clone, Copy, Debug, PartialEq, Eq, Structural)]
pub struct ModelReading {
    /// Current ceiling, in millimetres; `0` means no mandatory stop.
    pub ceiling: Depth,
    /// In-water gradient factor.
    pub gf_99: GF,
    /// Gradient factor if one surfaced now.
    pub gf_surf: GF,
}

/// Why the decompression model would refuse a step.
#[derive(Clone, Copy, Debug, PartialEq, Eq, Structural)]
pub enum ModelRejection {
    /// A waypoint is earlier than the one before it: the step would last a
    /// negative time.
    TimeReversed { previous: Seconds, current: Seconds },
    /// A switched-to mix whose oxygen and helium fractions exceed the whole.
    InvalidGas { o2: u32, he: u32 },
}

/// A failure that ends the processing of one dive.
#[derive(Clone, Debug, PartialEq)]
pub enum DiveError {
    /// A gas switch names a mix id that the gas table does not hold.
    GasResolution { gas_ref: String },
    /// The decompression model would reject a step.
    Model(ModelRejection),
}

/// The gas in effect once the first `n` waypoints have been taken: the most
/// recently switched-to mix that resolves, air before any switch.
pub open spec fn gas_after(wps: Seq<WaypointElem>, table: Seq<Mix>, n: int) -> Gas
    decreases n,
{
    if n <= 0 {
        Gas { o2: crate::common::AIR_O2, he: 0 }
    } else {
        match wps[n - 1].switchmix {
            Some(sw) => match mix_by_id(table, sw.gas_ref@) {
                Some(m) => m.gas_spec(),
                None => gas_after(wps, table, n - 1),
            },
            None => gas_after(wps, table, n - 1),
        }
    }
}

/// Seconds between waypoint `i` and the one before it; none for the first.
pub open spec fn step_time(wps: Seq<WaypointElem>, i: int) -> int {
    if i <= 0 {
        0
    } else {
        wps[i].dive_time - wps[i - 1].dive_time
    }
}

/// The failure that waypoint `i` causes by itself, if any: an unknown mix id,
/// then a mix the model refuses, then a time earlier than the previous one.
pub open spec fn waypoint_error(wps: Seq<WaypointElem>, table: Seq<Mix>, i: int) -> Option<
    DiveError,
> {
    let wp = wps[i];
    match wp.switchmix {
        Some(sw) if mix_by_id(table, sw.gas_ref@) is None => Some(
            DiveError::GasResolution { gas_ref: sw.gas_ref },
        ),
        Some(sw) if !mix_by_id(table, sw.gas_ref@).unwrap().gas_spec().wf() => Some(
            DiveError::Model(
                ModelRejection::InvalidGas {
                    o2: mix_by_id(table, sw.gas_ref@).unwrap().gas_spec().o2,
                    he: mix_by_id(table, sw.gas_ref@).unwrap().gas_spec().he,
                },
            ),
        ),
        _ => if i > 0 && wp.dive_time < wps[i - 1].dive_time {
            Some(
                DiveError::Model(
                    ModelRejection::TimeReversed {
                        previous: wps[i - 1].dive_time,
                        current: wp.dive_time,
                    },
                ),
            )
        } else {
            None
        },
    }
}

/// The first failure among the first `n` waypoints, in waypoint order.
pub open spec fn first_error(wps: Seq<WaypointElem>, table: Seq<Mix>, n: int) -> Option<
    DiveError,
>
    decreases n,
{
    if n <= 0 {
        None
    } else {
        match first_error(wps, table, n - 1) {
            Some(e) => Some(e),
            None => waypoint_error(wps, table, n - 1),
        }
    }
}

/// The model step for waypoint `i`.
pub open spec fn step_at(wps: Seq<WaypointElem>, table: Seq<Mix>, i: int) -> ModelStep {
    ModelStep {
        depth: wps[i].depth,
        time: step_time(wps, i) as Seconds,
        gas: gas_after(wps, table, i + 1),
    }
}

/// Sum of the times of the first `n` steps.
pub open spec fn total_time_upto(steps: Seq<ModelStep>, n: int) -> int
    decreases n,
{
    if n <= 0 {
        0
    } else {
        total_time_upto(steps, n - 1) + steps[n - 1].time
    }
}

/// Once a failure is met it stays the first one.
proof fn lemma_first_error_stays(wps: Seq<WaypointElem>, table: Seq<Mix>, k: int, n: int)
    requires
        0 <= k <= n,
        first_error(wps, table, k) is Some,
    ensures
        first_error(wps, table, n) == first_error(wps, table, k),
    decreases n - k,
{
    if k < n {
        lemma_first_error_stays(wps, table, k, n - 1);
    }
}

/// Without a failure, the step times add up to the span of the waypoints.
proof fn lemma_steps_span(wps: Seq<WaypointElem>, table: Seq<Mix>, steps: Seq<ModelStep>, n: int)
    requires
        0 < n <= wps.len(),
        n <= steps.len(),
        first_error(wps, table, n) is None,
        forall|j: int| 0 <= j < n ==> steps[j] == step_at(wps, table, j),
    ensures
        total_time_upto(steps, n) == wps[n - 1].dive_time - wps[0].dive_time,
        wps[0].dive_time <= wps[n - 1].dive_time,
    decreases n,
{
    assert(first_error(wps, table, n - 1) is None);
    assert(waypoint_error(wps, table, n - 1) is None);
    if n > 1 {
        lemma_steps_span(wps, table, steps, n - 1);
        assert(wps[n - 2].dive_time <= wps[n - 1].dive_time);
    } else {
        assert(total_time_upto(steps, 0) == 0);
    }
    assert(steps[n - 1] == step_at(wps, table, n - 1));
    assert(steps[n - 1].time == step_time(wps, n - 1));
    assert(total_time_upto(steps, n) == total_time_upto(steps, n - 1) + steps[n - 1].time);
}

/// Works out the model steps of a dive, in waypoint order.
///
/// Fails at the first waypoint whose gas switch names an unknown mix or a mix
/// that the model refuses, or whose time is earlier than the previous one.
pub fn plan_steps(samples: &SampleElem, gas_mixes: &Vec<Mix>) -> (r: Result<Vec<ModelStep>, DiveError>)
    ensures
        match r {
            Ok(steps) => {
                &&& first_error(samples.waypoints@, gas_mixes@, samples.waypoints@.len() as int) is None
                &&& steps@.len() == samples.waypoints@.len()
                &&& forall|i: int|
                    0 <= i < steps@.len() ==> #[trigger] steps@[i] == step_at(
                        samples.waypoints@,
                        gas_mixes@,
                        i,
                    )
                &&& total_time_upto(steps@, steps@.len() as int) <= u64::MAX
            },
            Err(e) => first_error(samples.waypoints@, gas_mixes@, samples.waypoints@.len() as int)
                == Some(e),
        },
{
    let wps = &samples.waypoints;
    let ghost table = gas_mixes@;
    let mut steps: Vec<ModelStep> = Vec::new();
    let mut gas = Gas::air();
    let mut i: usize = 0;
    while i < wps.len()
        invariant
            i <= wps@.len(),
            steps@.len() == i,
            forall|j: int| 0 <= j < i ==> #[trigger] steps@[j] == step_at(wps@, table, j),
            first_error(wps@, table, i as int) is None,
            gas == gas_after(wps@, table, i as int),
            table == gas_mixes@,
            wps@ == samples.waypoints@,
        decreases wps.len() - i,
    {
        let wp = &wps[i];
        match &wp.switchmix {
            Some(sw) => match gas_by_ref(&sw.gas_ref, gas_mixes) {
                Some(g) => {
                    if !gas_is_valid(&g) {
                        let e = DiveError::Model(ModelRejection::InvalidGas { o2: g.o2, he: g.he });
                        assert(first_error(wps@, table, i + 1) == Some(e));
                        proof {
                            lemma_first_error_stays(wps@, table, i + 1, wps@.len() as int);
                        }
                        return Err(e);
                    }
                    gas = g;
                },
                None => {
                    let e = DiveError::GasResolution { gas_ref: sw.gas_ref.clone() };
                    assert(first_error(wps@, table, i + 1) == Some(e));
                    proof {
                        lemma_first_error_stays(wps@, table, i + 1, wps@.len() as int);
                    }
                    return Err(e);
                },
            },
            None => {},
        }
        let mut time: Seconds = 0;
        if i > 0 {
            let previous = wps[i - 1].dive_time;
            if wp.dive_time < previous {
                let e = DiveError::Model(
                    ModelRejection::TimeReversed { previous, current: wp.dive_time },
                );
                assert(first_error(wps@, table, i + 1) == Some(e));
                proof {
                    lemma_first_error_stays(wps@, table, i + 1, wps@.len() as int);
                }
                return Err(e);
            }
            time = wp.dive_time - previous;
        }
        steps.push(ModelStep { depth: wp.depth, time, gas });
        assert(first_error(wps@, table, i + 1) is None);
        i = i + 1;
    }
    if wps.len() > 0 {
        proof {
            lemma_steps_span(wps@, table, steps@, wps@.len() as int);
        }
    }
    Ok(steps)
}

/// The greater of two integers.
pub open spec fn max_int(a: int, b: int) -> int {
    if a >= b {
        a
    } else {
        b
    }
}

/// Deepest depth among the first `n` steps; `0` for none.
pub open spec fn depth_max_upto(steps: Seq<ModelStep>, n: int) -> int
    decreases n,
{
    if n <= 0 {
        0
    } else {
        max_int(depth_max_upto(steps, n - 1), steps[n - 1].depth as int)
    }
}

/// Time of the first `n` steps after which the model had a ceiling.
pub open spec fn deco_time_upto(steps: Seq<ModelStep>, readings: Seq<ModelReading>, n: int) -> int
    decreases n,
{
    if n <= 0 {
        0
    } else {
        deco_time_upto(steps, readings, n - 1) + if readings[n - 1].ceiling > 0 {
            steps[n - 1].time as int
        } else {
            0
        }
    }
}

/// Greatest surface gradient factor among the first `n` readings; `0` for none.
pub open spec fn gf_surf_max_upto(readings: Seq<ModelReading>, n: int) -> int
    decreases n,
{
    if n <= 0 {
        0
    } else {
        max_int(gf_surf_max_upto(readings, n - 1), readings[n - 1].gf_surf as int)
    }
}

/// Greatest in-water gradient factor among the first `n` readings; `0` for none.
pub open spec fn gf_99_max_upto(readings: Seq<ModelReading>, n: int) -> int
    decreases n,
{
    if n <= 0 {
        0
    } else {
        max_int(gf_99_max_upto(readings, n - 1), readings[n - 1].gf_99 as int)
    }
}

/// Step `i` returns to the surface: it is at depth zero and the step before
/// it was not.
pub open spec fn surfaces_at(steps: Seq<ModelStep>, i: int) -> bool {
    &&& steps[i].depth == 0
    &&& i > 0
    &&& steps[i - 1].depth != 0
}

/// In-water gradient factor at the last return to the surface among the first
/// `n` steps; `0` if there was none.
pub open spec fn gf_end_upto(steps: Seq<ModelStep>, readings: Seq<ModelReading>, n: int) -> int
    decreases n,
{
    if n <= 0 {
        0
    } else if surfaces_at(steps, n - 1) {
        readings[n - 1].gf_99 as int
    } else {
        gf_end_upto(steps, readings, n - 1)
    }
}

/// Time of the first `n` steps taken at or below `threshold`.
pub open spec fn time_below_upto(steps: Seq<ModelStep>, threshold: Depth, n: int) -> int
    decreases n,
{
    if n <= 0 {
        0
    } else {
        time_below_upto(steps, threshold, n - 1) + if steps[n - 1].depth >= threshold {
            steps[n - 1].time as int
        } else {
            0
        }
    }
}

/// The running sums over a prefix stay within the total time of a longer one.
proof fn lemma_sums_bounded(steps: Seq<ModelStep>, readings: Seq<ModelReading>, m: int, n: int)
    requires
        0 <= m <= n,
    ensures
        0 <= total_time_upto(steps, m) <= total_time_upto(steps, n),
        0 <= deco_time_upto(steps, readings, m) <= total_time_upto(steps, m),
        forall|t: Depth| 0 <= #[trigger] time_below_upto(steps, t, m) <= total_time_upto(steps, m),
    decreases n,
{
    if m < n {
        lemma_sums_bounded(steps, readings, m, n - 1);
    } else if n > 0 {
        lemma_sums_bounded(steps, readings, n - 1, n - 1);
        assert forall|t: Depth| 0 <= #[trigger] time_below_upto(steps, t, m) <= total_time_upto(
            steps,
            m,
        ) by {
            assert(time_below_upto(steps, t, m - 1) <= total_time_upto(steps, m - 1));
        }
    }
}

/// A step at exactly a threshold depth counts as below it: its time is
/// added to that threshold's total.
pub proof fn lemma_threshold_inclusive(steps: Seq<ModelStep>, i: int)
    requires
        0 <= i < steps.len(),
    ensures
        time_below_upto(steps, steps[i].depth, i + 1) == time_below_upto(steps, steps[i].depth, i)
            + steps[i].time,
{
}

/// A dive without waypoints plans no model step, and no steps give all-zero
/// statistics.
pub proof fn lemma_no_waypoints(
    wps: Seq<WaypointElem>,
    table: Seq<Mix>,
    steps: Seq<ModelStep>,
    readings: Seq<ModelReading>,
)
    requires
        wps.len() == 0,
        steps.len() == 0,
    ensures
        first_error(wps, table, 0) is None,
        total_time_upto(steps, 0) == 0,
        depth_max_upto(steps, 0) == 0,
        deco_time_upto(steps, readings, 0) == 0,
        gf_surf_max_upto(readings, 0) == 0,
        gf_99_max_upto(readings, 0) == 0,
        gf_end_upto(steps, readings, 0) == 0,
        forall|t: Depth| #[trigger] time_below_upto(steps, t, 0) == 0,
{
}

/// Which depths are tracked, and with which gradient factors the model runs.
pub struct DiveConfig {
    pub gradient_factors: GradientFactorsSetting,
    pub treshold_depths: Vec<Depth>,
}

/// The statistics of one dive.
#[derive(Clone, Debug, PartialEq)]
pub struct Dive {
    pub total_time: Seconds,
    pub depth_max: Depth,
    pub time_in_deco: Seconds,
    pub gf_surf_max: GF,
    pub gf_99_max: GF,
    /// In-water gradient factor when the dive returned to the surface.
    pub gf_end: GF,
    /// Seconds spent at or below each threshold depth, in configured order.
    pub time_below: Vec<(Depth, Seconds)>,
}

/// A dive's statistics as mathematical integers.
pub struct DiveView {
    pub total_time: nat,
    pub depth_max: nat,
    pub time_in_deco: nat,
    pub gf_surf_max: nat,
    pub gf_99_max: nat,
    pub gf_end: nat,
    pub time_below: Seq<(nat, nat)>,
}

impl View for Dive {
    type V = DiveView;

    open spec fn view(&self) -> DiveView {
        DiveView {
            total_time: self.total_time as nat,
            depth_max: self.depth_max as nat,
            time_in_deco: self.time_in_deco as nat,
            gf_surf_max: self.gf_surf_max as nat,
            gf_99_max: self.gf_99_max as nat,
            gf_end: self.gf_end as nat,
            time_below: table_view(self.time_below@),
        }
    }
}

/// The time-below table of a dive that has not started: each threshold at zero.
pub fn construct_treshold_depths(treshold_config: &Vec<Depth>) -> (r: Vec<(Depth, Seconds)>)
    ensures
        r@.len() == treshold_config@.len(),
        forall|k: int| 0 <= k < r@.len() ==> #[trigger] r@[k] == (treshold_config@[k], 0u64),
{
    let mut time_below: Vec<(Depth, Seconds)> = Vec::new();
    let mut i: usize = 0;
    while i < treshold_config.len()
        invariant
            i <= treshold_config@.len(),
            time_below@.len() == i,
            forall|k: int| 0 <= k < i ==> #[trigger] time_below@[k] == (treshold_config@[k], 0u64),
        decreases treshold_config.len() - i,
    {
        time_below.push((treshold_config[i], 0));
        i = i + 1;
    }
    time_below
}

impl Dive {
    /// A dive with nothing recorded yet.
    pub fn new(config: &DiveConfig) -> (r: Dive)
        ensures
            r.total_time == 0,
            r.depth_max == 0,
            r.time_in_deco == 0,
            r.gf_surf_max == 0,
            r.gf_99_max == 0,
            r.gf_end == 0,
            r.time_below@.len() == config.treshold_depths@.len(),
            forall|k: int|
                0 <= k < r.time_below@.len() ==> #[trigger] r.time_below@[k] == (
                    config.treshold_depths@[k],
                    0u64,
                ),
    {
        Dive {
            total_time: 0,
            depth_max: 0,
            time_in_deco: 0,
            gf_surf_max: 0,
            gf_99_max: 0,
            gf_end: 0,
            time_below: construct_treshold_depths(&config.treshold_depths),
        }
    }

    /// Takes in the depth of a step: the deepest point, and the time at or
    /// below each threshold.
    fn register_depth(&mut self, depth: Depth, step_time: Seconds)
        requires
            forall|k: int|
                0 <= k < old(self).time_below@.len() && depth >= old(self).time_below@[k].0
                    ==> #[trigger] old(self).time_below@[k].1 + step_time <= u64::MAX,
        ensures
            final(self).depth_max == max_int(old(self).depth_max as int, depth as int),
            final(self).time_below@.len() == old(self).time_below@.len(),
            forall|k: int|
                0 <= k < final(self).time_below@.len() ==> #[trigger] final(self).time_below@[k] == (
                    old(self).time_below@[k].0,
                    if depth >= old(self).time_below@[k].0 {
                        (old(self).time_below@[k].1 + step_time) as u64
                    } else {
                        old(self).time_below@[k].1
                    },
                ),
            final(self).total_time == old(self).total_time,
            final(self).time_in_deco == old(self).time_in_deco,
            final(self).gf_surf_max == old(self).gf_surf_max,
            final(self).gf_99_max == old(self).gf_99_max,
            final(self).gf_end == old(self).gf_end,
    {
        if depth > self.depth_max {
            self.depth_max = depth;
        }
        let ghost before = self.time_below@;
        let mut j: usize = 0;
        while j < self.time_below.len()
            invariant
                j <= self.time_below@.len(),
                self.time_below@.len() == before.len(),
                before == old(self).time_below@,
                self.depth_max == max_int(old(self).depth_max as int, depth as int),
                self.total_time == old(self).total_time,
                self.time_in_deco == old(self).time_in_deco,
                self.gf_surf_max == old(self).gf_surf_max,
                self.gf_99_max == old(self).gf_99_max,
                self.gf_end == old(self).gf_end,
                forall|k: int|
                    0 <= k < before.len() && depth >= before[k].0 ==> #[trigger] before[k].1
                        + step_time <= u64::MAX,
                forall|k: int|
                    0 <= k < before.len() ==> #[trigger] self.time_below@[k] == if k < j {
                        (
                            before[k].0,
                            if depth >= before[k].0 {
                                (before[k].1 + step_time) as u64
                            } else {
                                before[k].1
                            },
                        )
                    } else {
                        before[k]
                    },
            decreases before.len() - j,
        {
            let (treshold_depth, time) = self.time_below[j];
            if depth >= treshold_depth {
                self.time_below.set(j, (treshold_depth, time + step_time));
            }
            j = j + 1;
        }
    }

    /// Takes in what the model reported after a step: the gradient factor
    /// maxima, and the in-water gradient factor if this step surfaces.
    fn register_gfs(&mut self, reading: ModelReading, depth: Depth, last_depth: Depth)
        ensures
            final(self).gf_surf_max == max_int(old(self).gf_surf_max as int, reading.gf_surf as int),
            final(self).gf_99_max == max_int(old(self).gf_99_max as int, reading.gf_99 as int),
            final(self).gf_end == if depth == 0 && last_depth != 0 {
                reading.gf_99
            } else {
                old(self).gf_end
            },
            final(self).total_time == old(self).total_time,
            final(self).depth_max == old(self).depth_max,
            final(self).time_in_deco == old(self).time_in_deco,
            final(self).time_below == old(self).time_below,
    {
        if reading.gf_surf > self.gf_surf_max {
            self.gf_surf_max = reading.gf_surf;
        }
        if reading.gf_99 > self.gf_99_max {
            self.gf_99_max = reading.gf_99;
        }
        if depth == 0 && last_depth != 0 {
            self.gf_end = reading.gf_99;
        }
    }

    /// Folds the model steps of a dive and the readings taken after each of
    /// them into the dive's statistics.
    pub fn calc_dive_stats(config: &DiveConfig, steps: &Vec<ModelStep>, readings: &Vec<ModelReading>) -> (r: Dive)
        requires
            readings@.len() == steps@.len(),
            total_time_upto(steps@, steps@.len() as int) <= u64::MAX,
        ensures
            r.total_time == total_time_upto(steps@, steps@.len() as int),
            r.depth_max == depth_max_upto(steps@, steps@.len() as int),
            r.time_in_deco == deco_time_upto(steps@, readings@, steps@.len() as int),
            r.gf_surf_max == gf_surf_max_upto(readings@, steps@.len() as int),
            r.gf_99_max == gf_99_max_upto(readings@, steps@.len() as int),
            r.gf_end == gf_end_upto(steps@, readings@, steps@.len() as int),
            r.time_below@.len() == config.treshold_depths@.len(),
            forall|k: int|
                0 <= k < r.time_below@.len() ==> #[trigger] r.time_below@[k] == (
                    config.treshold_depths@[k],
                    time_below_upto(steps@, config.treshold_depths@[k], steps@.len() as int) as u64,
                ),
    {
        let mut dive = Dive::new(config);
        let ghost n = steps@.len() as int;
        let ghost th = config.treshold_depths@;
        let mut last_depth: Depth = 0;
        let mut i: usize = 0;
        while i < steps.len()
            invariant
                i <= n,
                n == steps@.len(),
                readings@.len() == n,
                total_time_upto(steps@, n) <= u64::MAX,
                th == config.treshold_depths@,
                dive.total_time == total_time_upto(steps@, i as int),
                dive.depth_max == depth_max_upto(steps@, i as int),
                dive.time_in_deco == deco_time_upto(steps@, readings@, i as int),
                dive.gf_surf_max == gf_surf_max_upto(readings@, i as int),
                dive.gf_99_max == gf_99_max_upto(readings@, i as int),
                dive.gf_end == gf_end_upto(steps@, readings@, i as int),
                last_depth == if i == 0 {
                    0
                } else {
                    steps@[i - 1].depth
                },
                dive.time_below@.len() == th.len(),
                forall|k: int|
                    0 <= k < th.len() ==> #[trigger] dive.time_below@[k] == (
                        th[k],
                        time_below_upto(steps@, th[k], i as int) as u64,
                    ),
            decreases n - i,
        {
            let step = steps[i];
            let reading = readings[i];
            proof {
                lemma_sums_bounded(steps@, readings@, i + 1, n);
                lemma_sums_bounded(steps@, readings@, i as int, i as int);
                assert forall|k: int| 0 <= k < th.len() implies #[trigger] dive.time_below@[k].1
                    == time_below_upto(steps@, th[k], i as int) by {
                    assert(time_below_upto(steps@, th[k], i as int) <= total_time_upto(steps@, i as int));
                }
                assert(time_below_upto(steps@, step.depth, i as int + 1) <= total_time_upto(steps@, n));
            }
            dive.total_time = dive.total_time + step.time;
            dive.register_depth(step.depth, step.time);
            dive.register_gfs(reading, step.depth, last_depth);
            if reading.ceiling > 0 {
                dive.time_in_deco = dive.time_in_deco + step.time;
            }
            last_depth = step.depth;
            i = i + 1;
            proof {
                assert forall|k: int| 0 <= k < th.len() implies #[trigger] dive.time_below@[k] == (
                    th[k],
                    time_below_upto(steps@, th[k], i as int) as u64,
                ) by {
                    assert(time_below_upto(steps@, th[k], i as int) <= total_time_upto(steps@, i as int));
                }
            }
        }
        dive
    }
}

} // verus!
