//! Decompression statistics over recorded dive profiles.
//!
//! Each dive is walked on its own ([`dive`]), and the statistics of all dives
//! are folded into one summary ([`stats`]), in whatever order the dives were
//! processed ([`laws`]).
use vstd::prelude::*;

pub mod common;
pub mod dive;
pub mod laws;
pub mod samples;
pub mod stats;

use crate::dive::{Dive, DiveError, DiveView};
use crate::laws::fold_view;
use crate::stats::{empty_view, merge_view, AggregationError, StatsData};

verus! {

/// Where the dive logs to report on are.
pub struct Config {
    pub path: String,
}

impl Config {
    /// Reads the configuration from command-line arguments, the program name
    /// first: the path is the next argument, empty when there is none.
    pub fn build(args: Vec<String>) -> (r: Result<Config, &'static str>)
        ensures
            r is Ok,
            r matches Ok(c) && c.path@ == if args@.len() >= 2 {
                args@[1]@
            } else {
                Seq::<char>::empty()
            },
    {
        let path = if args.len() >= 2 {
            args[1].clone()
        } else {
            String::new()
        };
        Ok(Config { path })
    }
}

/// What a batch does when one of its dives failed.
#[derive(Clone, Copy, Debug, PartialEq, Eq, Structural)]
pub enum FailurePolicy {
    /// The whole batch fails with the first failed dive.
    AbortBatch,
    /// Failed dives are left out of the statistics and listed in the report.
    SkipDive,
}

/// The outcome of a batch of dives.
#[derive(Clone, Debug, PartialEq)]
pub struct RunReport {
    pub stats: StatsData,
    /// Each failed dive left out, by its position in the batch.
    pub failed: Vec<(usize, DiveError)>,
}

/// Why a batch failed.
#[derive(Clone, Debug, PartialEq)]
pub enum RunError {
    /// Dive number `index` failed, and the policy aborts the batch.
    Dive { index: usize, error: DiveError },
    /// A total of the statistics would overflow.
    Aggregation(AggregationError),
}

/// The statistics of the dives that succeeded, in batch order.
pub open spec fn ok_dives(os: Seq<Result<Dive, DiveError>>) -> Seq<DiveView>
    decreases os.len(),
{
    if os.len() == 0 {
        Seq::empty()
    } else {
        match os.last() {
            Ok(d) => ok_dives(os.drop_last()).push(d@),
            Err(_) => ok_dives(os.drop_last()),
        }
    }
}

/// The dives that failed, by position, in batch order.
pub open spec fn failures(os: Seq<Result<Dive, DiveError>>) -> Seq<(usize, DiveError)>
    decreases os.len(),
{
    if os.len() == 0 {
        Seq::empty()
    } else {
        match os.last() {
            Ok(_) => failures(os.drop_last()),
            Err(e) => failures(os.drop_last()).push(((os.len() - 1) as usize, e)),
        }
    }
}

/// Every merge of a succeeded dive, in batch order, keeps the totals within
/// their machine integers.
pub open spec fn merges_fit(os: Seq<Result<Dive, DiveError>>) -> bool
    decreases os.len(),
{
    if os.len() == 0 {
        true
    } else {
        &&& merges_fit(os.drop_last())
        &&& match os.last() {
            Ok(d) => merge_view(fold_view(empty_view(), ok_dives(os.drop_last())), d@).fits(),
            Err(_) => true,
        }
    }
}

proof fn lemma_failures_prefix(os: Seq<Result<Dive, DiveError>>, p: int, q: int)
    requires
        0 <= p <= q <= os.len(),
    ensures
        failures(os.take(p)).len() <= failures(os.take(q)).len(),
        forall|i: int|
            0 <= i < failures(os.take(p)).len() ==> #[trigger] failures(os.take(q))[i] == failures(
                os.take(p),
            )[i],
    decreases q - p,
{
    if p < q {
        lemma_failures_prefix(os, p, q - 1);
        assert(os.take(q).drop_last() =~= os.take(q - 1));
    }
}

proof fn lemma_merges_fit_prefix(os: Seq<Result<Dive, DiveError>>, p: int, q: int)
    requires
        0 <= p <= q <= os.len(),
        merges_fit(os.take(q)),
    ensures
        merges_fit(os.take(p)),
    decreases q - p,
{
    if p < q {
        assert(os.take(q).drop_last() =~= os.take(q - 1));
        lemma_merges_fit_prefix(os, p, q - 1);
    }
}

/// Folds the outcomes of a batch of dives into statistics.
///
/// Under [`FailurePolicy::AbortBatch`] a batch with a failed dive fails with
/// the first one, and nothing is merged. Otherwise the dives that succeeded
/// are merged in batch order, and the failed ones are listed; the batch fails
/// only if a total would overflow.
pub fn run(outcomes: Vec<Result<Dive, DiveError>>, policy: FailurePolicy) -> (r: Result<
    RunReport,
    RunError,
>)
    ensures
        policy == FailurePolicy::AbortBatch && failures(outcomes@).len() > 0 ==> r == Err::<
            RunReport,
            RunError,
        >(
            RunError::Dive {
                index: failures(outcomes@)[0].0,
                error: failures(outcomes@)[0].1,
            },
        ),
        !(policy == FailurePolicy::AbortBatch && failures(outcomes@).len() > 0) ==> {
            &&& !merges_fit(outcomes@) <==> r == Err::<RunReport, RunError>(
                RunError::Aggregation(AggregationError::Overflow),
            )
            &&& merges_fit(outcomes@) ==> (r matches Ok(rep) && rep.stats@ == fold_view(
                empty_view(),
                ok_dives(outcomes@),
            ) && rep.failed@ == failures(outcomes@))
        },
{
    let ghost os = outcomes@;
    let n = outcomes.len();
    let mut rest = outcomes;
    if policy == FailurePolicy::AbortBatch {
        let mut j: usize = 0;
        while j < n
            invariant
                j <= n,
                n == os.len(),
                rest@ == os,
                os == outcomes@,
                failures(os.take(j as int)).len() == 0,
                policy == FailurePolicy::AbortBatch,
            decreases n - j,
        {
            assert(os.take(j + 1).drop_last() =~= os.take(j as int));
            assert(os.take(j + 1).last() == os[j as int]);
            if rest[j].is_err() {
                if let Err(error) = rest.remove(j) {
                    proof {
                        lemma_failures_prefix(os, j + 1, os.len() as int);
                        assert(os.take(os.len() as int) =~= os);
                        assert(failures(os.take(j + 1)) =~= seq![(j, error)]);
                    }
                    return Err(RunError::Dive { index: j, error });
                }
            }
            j = j + 1;
        }
        assert(os.take(n as int) =~= os);
    }
    let mut stats = StatsData::new();
    let mut failed: Vec<(usize, DiveError)> = Vec::new();
    let mut i: usize = 0;
    assert(os.take(0) =~= Seq::<Result<Dive, DiveError>>::empty());
    while i < n
        invariant
            i <= n,
            n == os.len(),
            rest@ == os.subrange(i as int, n as int),
            os == outcomes@,
            stats@ == fold_view(empty_view(), ok_dives(os.take(i as int))),
            failed@ == failures(os.take(i as int)),
            merges_fit(os.take(i as int)),
            policy == FailurePolicy::AbortBatch ==> failures(os).len() == 0,
        decreases n - i,
    {
        assert(os.take(i + 1).drop_last() =~= os.take(i as int));
        assert(os.take(i + 1).last() == os[i as int]);
        let o = rest.remove(0);
        assert(rest@ =~= os.subrange(i + 1, n as int));
        match o {
            Ok(dive) => {
                let ghost prev = ok_dives(os.take(i as int));
                assert(prev.push(dive@).drop_last() =~= prev);
                match stats.update_with_dive_data(dive) {
                    Ok(()) => {},
                    Err(e) => {
                        proof {
                            if merges_fit(os) {
                                assert(os.take(os.len() as int) =~= os);
                                lemma_merges_fit_prefix(os, i + 1, os.len() as int);
                            }
                        }
                        return Err(RunError::Aggregation(e));
                    },
                }
            },
            Err(error) => {
                failed.push((i, error));
            },
        }
        i = i + 1;
    }
    assert(os.take(n as int) =~= os);
    Ok(RunReport { stats, failed })
}

} // verus!
