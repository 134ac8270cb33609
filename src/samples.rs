//! The records a parsed dive log hands to the library: gas mixes and the
//! time-stamped depth samples of each dive.
use vstd::prelude::*;

use crate::common::{Depth, Gas, Seconds, FRACTION_ONE};

verus! {

/// A gas mix defined in a dive log; fractions in ten-thousandths.
#[derive(Clone, Debug, PartialEq)]
pub struct Mix {
    pub id: String,
    pub name: String,
    pub o2: u32,
    pub n2: Option<u32>,
    pub he: Option<u32>,
}

impl Mix {
    /// The gas this mix stands for: a missing helium fraction is none.
    pub open spec fn gas_spec(self) -> Gas {
        Gas {
            o2: self.o2,
            he: match self.he {
                Some(he) => he,
                None => 0,
            },
        }
    }

    pub fn gas(&self) -> (r: Gas)
        ensures
            r == self.gas_spec(),
    {
        let he: u32 = match self.he {
            Some(he) => he,
            None => 0,
        };
        Gas { o2: self.o2, he }
    }
}

/// A request, attached to a waypoint, to breathe the mix with this id.
#[derive(Clone, Debug, PartialEq)]
pub struct SwitchMix {
    pub gas_ref: String,
}

/// A decompression stop annotation of a waypoint.
#[derive(Clone, Debug, PartialEq)]
pub struct DecostopElem {
    pub kind: String,
}

/// One depth sample of a dive.
#[derive(Clone, Debug, PartialEq)]
pub struct WaypointElem {
    /// Seconds since the start of the dive.
    pub dive_time: Seconds,
    pub depth: Depth,
    pub switchmix: Option<SwitchMix>,
    pub decostops: Option<Vec<DecostopElem>>,
}

/// The samples of one dive, in recorded order.
#[derive(Clone, Debug, PartialEq)]
pub struct SampleElem {
    pub waypoints: Vec<WaypointElem>,
}

/// The mix that an id names in a table: the last entry with that id.
pub open spec fn mix_by_id(table: Seq<Mix>, id: Seq<char>) -> Option<Mix>
    decreases table.len(),
{
    if table.len() == 0 {
        None
    } else if table.last().id@ == id {
        Some(table.last())
    } else {
        mix_by_id(table.drop_last(), id)
    }
}

/// Looks a gas up by its mix id.
pub fn gas_by_ref(gas_ref: &String, gas_mixes: &Vec<Mix>) -> (r: Option<Gas>)
    ensures
        r == (match mix_by_id(gas_mixes@, gas_ref@) {
            Some(m) => Some(m.gas_spec()),
            None => None,
        }),
{
    let mut gas: Option<Gas> = None;
    let mut i: usize = 0;
    while i < gas_mixes.len()
        invariant
            i <= gas_mixes.len(),
            gas == (match mix_by_id(gas_mixes@.subrange(0, i as int), gas_ref@) {
                Some(m) => Some(m.gas_spec()),
                None => None,
            }),
        decreases gas_mixes.len() - i,
    {
        assert(gas_mixes@.subrange(0, i as int + 1).drop_last() =~= gas_mixes@.subrange(0, i as int));
        let mix = &gas_mixes[i];
        if mix.id == *gas_ref {
            gas = Some(mix.gas());
        }
        i = i + 1;
    }
    assert(gas_mixes@.subrange(0, gas_mixes.len() as int) =~= gas_mixes@);
    gas
}

/// Whether a gas is one the decompression model accepts.
pub fn gas_is_valid(gas: &Gas) -> (r: bool)
    ensures
        r == gas.wf(),
{
    gas.o2 as u64 + gas.he as u64 <= FRACTION_ONE as u64
}

} // verus!
