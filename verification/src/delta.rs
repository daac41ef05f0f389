//! Traversal delta computation.
//!
//! An agent's ordered records become one home position (the first record's
//! position) and one delta per adjacent pair: the displacement on each
//! canonical axis and the elapsed time. Timestamps are milliseconds, so the
//! elapsed micro-milliseconds are divided by one thousand to give
//! micro-seconds.

use vstd::prelude::*;

use crate::num::div1000_trunc;
use crate::num::div_ms;
use crate::num::in_coord_range;
use crate::table::RawRecord;
use crate::table::RecModel;

verus! {

/// One step between two consecutive records, in micro-units.
#[derive(Clone, Copy, Debug, PartialEq, Eq, Structural)]
pub struct Traversal {
    pub dx: i64,
    pub dy: i64,
    pub dz: i64,
    pub dt: i64,
}

/// The mathematical shadow of a step.
pub struct TravModel {
    pub dx: int,
    pub dy: int,
    pub dz: int,
    pub dt: int,
}

impl View for Traversal {
    type V = TravModel;

    open spec fn view(&self) -> TravModel {
        TravModel { dx: self.dx as int, dy: self.dy as int, dz: self.dz as int, dt: self.dt as int }
    }
}

impl DeepView for Traversal {
    type V = TravModel;

    open spec fn deep_view(&self) -> TravModel {
        self.view()
    }
}

/// A record whose numeric fields are within one translation of the parse
/// range.
pub open spec fn rec_bounded(m: RecModel) -> bool {
    &&& in_coord_range(m.ts)
    &&& in_coord_range(m.x)
    &&& in_coord_range(m.z)
    &&& in_coord_range(m.y)
}

/// The step from record `a` to record `b`: x from column one, y from column
/// three, z from column two, time from the millisecond timestamps.
pub open spec fn spec_traversal(a: RecModel, b: RecModel) -> TravModel {
    TravModel {
        dx: b.x - a.x,
        dy: b.y - a.y,
        dz: b.z - a.z,
        dt: div1000_trunc(b.ts - a.ts),
    }
}

/// All steps of a record sequence: one per adjacent pair, so one fewer than
/// there are records.
pub open spec fn spec_traversals(recs: Seq<RecModel>) -> Seq<TravModel> {
    if recs.len() <= 1 {
        Seq::empty()
    } else {
        Seq::new((recs.len() - 1) as nat, |i: int| spec_traversal(recs[i], recs[i + 1]))
    }
}

pub open spec fn sum_dx(ts: Seq<TravModel>) -> int
    decreases ts.len(),
{
    if ts.len() == 0 {
        0
    } else {
        sum_dx(ts.drop_last()) + ts.last().dx
    }
}

pub open spec fn sum_dy(ts: Seq<TravModel>) -> int
    decreases ts.len(),
{
    if ts.len() == 0 {
        0
    } else {
        sum_dy(ts.drop_last()) + ts.last().dy
    }
}

pub open spec fn sum_dz(ts: Seq<TravModel>) -> int
    decreases ts.len(),
{
    if ts.len() == 0 {
        0
    } else {
        sum_dz(ts.drop_last()) + ts.last().dz
    }
}

/// The deltas telescope: the first record's position plus the sum of all
/// steps is exactly the last record's position, axis by axis.
pub proof fn lemma_delta_round_trip(recs: Seq<RecModel>)
    requires
        recs.len() >= 1,
    ensures
        recs[0].x + sum_dx(spec_traversals(recs)) == recs.last().x,
        recs[0].y + sum_dy(spec_traversals(recs)) == recs.last().y,
        recs[0].z + sum_dz(spec_traversals(recs)) == recs.last().z,
    decreases recs.len(),
{
    if recs.len() == 1 {
        assert(spec_traversals(recs).len() == 0);
    } else {
        let front = recs.drop_last();
        lemma_delta_round_trip(front);
        let ts = spec_traversals(recs);
        assert(ts.drop_last() =~= spec_traversals(front));
        assert(ts.last() == spec_traversal(recs[recs.len() - 2], recs.last()));
    }
}

/// Compute the steps of a record sequence.
pub fn compute_traversals(recs: &Vec<RawRecord>) -> (r: Vec<Traversal>)
    requires
        forall|i: int|
            0 <= i < recs.deep_view().len() ==> rec_bounded(#[trigger] recs.deep_view()[i]),
    ensures
        r.deep_view() == spec_traversals(recs.deep_view()),
{
    let mut out: Vec<Traversal> = Vec::new();
    if recs.len() <= 1 {
        proof {
            assert(out.deep_view() =~= spec_traversals(recs.deep_view()));
        }
        return out;
    }
    let mut i: usize = 1;
    while i < recs.len()
        invariant
            1 <= i <= recs@.len(),
            recs@.len() == recs.deep_view().len(),
            recs@.len() >= 2,
            forall|k: int|
                0 <= k < recs.deep_view().len() ==> rec_bounded(#[trigger] recs.deep_view()[k]),
            out.deep_view().len() == i - 1,
            forall|k: int|
                0 <= k < i - 1 ==> out.deep_view()[k] == spec_traversal(
                    #[trigger] recs.deep_view()[k],
                    recs.deep_view()[k + 1],
                ),
        decreases recs@.len() - i,
    {
        let prev = &recs[i - 1];
        let cur = &recs[i];
        proof {
            assert(rec_bounded(recs.deep_view()[i - 1]));
            assert(rec_bounded(recs.deep_view()[i as int]));
        }
        let t = Traversal {
            dx: cur.x - prev.x,
            dy: cur.y - prev.y,
            dz: cur.z - prev.z,
            dt: div_ms(cur.ts - prev.ts),
        };
        out.push(t);
        i = i + 1;
    }
    proof {
        assert(out.deep_view() =~= spec_traversals(recs.deep_view()));
    }
    out
}

} // verus!
