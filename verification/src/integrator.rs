//! Position-based time integration of the simulated points.

use crate::state::VerletPoint;
use vstd::prelude::*;

verus! {

/// One integration step of a point: its old position becomes its history,
/// and its new position is what the `advance` kernel makes of the old
/// position, the old history, the time step and the gain. Rest data is kept.
pub open spec fn advanced<V, R, L, FA: Fn(V, V, L, L) -> V>(
    advance: FA,
    delta_time: L,
    gain: L,
    before: VerletPoint<V, R, L>,
    after: VerletPoint<V, R, L>,
) -> bool {
    &&& after.previous == before.current
    &&& call_ensures(advance, (before.current, before.previous, delta_time, gain), after.current)
    &&& after.rest_rotation == before.rest_rotation
    &&& after.segment_length == before.segment_length
}

/// One integration step of the chain: the anchor is left alone, every other
/// point is advanced once.
pub open spec fn integrated<V, R, L, FA: Fn(V, V, L, L) -> V>(
    advance: FA,
    delta_time: L,
    gain: L,
    before: Seq<VerletPoint<V, R, L>>,
    after: Seq<VerletPoint<V, R, L>>,
) -> bool {
    &&& after.len() == before.len()
    &&& before.len() > 0 ==> after[0] == before[0]
    &&& forall|i: int|
        1 <= i < before.len() ==> advanced(
            advance,
            delta_time,
            gain,
            before[i],
            #[trigger] after[i],
        )
}

/// Advances every simulated point by one step.
/// `advance(current, previous, delta_time, gain)` gives the next position of
/// a point: its position moved on by its implicit velocity, scaled by the
/// time step and the integration gain.
pub fn integrate<V: Copy, R: Copy, L: Copy, FA: Fn(V, V, L, L) -> V>(
    points: &mut Vec<VerletPoint<V, R, L>>,
    delta_time: L,
    gain: L,
    advance: &FA,
)
    requires
        forall|c: V, p: V, t: L, g: L| call_requires(*advance, (c, p, t, g)),
    ensures
        integrated(*advance, delta_time, gain, old(points)@, final(points)@),
{
    let ghost before = points@;
    let mut i: usize = 1;
    while i < points.len()
        invariant
            1 <= i,
            points.len() == before.len(),
            forall|c: V, p: V, t: L, g: L| call_requires(*advance, (c, p, t, g)),
            before.len() > 0 ==> points[0] == before[0],
            forall|k: int|
                1 <= k < i && k < before.len() ==> advanced(
                    *advance,
                    delta_time,
                    gain,
                    before[k],
                    #[trigger] points[k],
                ),
            forall|k: int| i <= k < before.len() ==> #[trigger] points[k] == before[k],
        decreases points.len() - i,
    {
        let point = points[i];
        let next = advance(point.current, point.previous, delta_time, gain);
        points[i] = VerletPoint {
            current: next,
            previous: point.current,
            rest_rotation: point.rest_rotation,
            segment_length: point.segment_length,
        };
        i += 1;
    }
}

/// A point whose kernel keeps it where it is when it has no velocity stays
/// put: with `current == previous` everywhere, integration changes nothing.
pub proof fn lemma_still_chain_stays<V, R, L, FA: Fn(V, V, L, L) -> V>(
    advance: FA,
    delta_time: L,
    gain: L,
    before: Seq<VerletPoint<V, R, L>>,
    after: Seq<VerletPoint<V, R, L>>,
)
    requires
        integrated(advance, delta_time, gain, before, after),
        forall|i: int|
            1 <= i < before.len() ==> (#[trigger] before[i]).previous == before[i].current,
        forall|at: V, out: V| call_ensures(advance, (at, at, delta_time, gain), out) ==> out == at,
    ensures
        after =~= before,
{
    assert forall|i: int| 0 <= i < before.len() implies after[i] == before[i] by {
        if i >= 1 {
            assert(advanced(advance, delta_time, gain, before[i], after[i]));
        }
    }
}

/// With an `advance` kernel that gives one value for one set of arguments,
/// an integration step gives one chain for one chain.
pub proof fn lemma_integrated_one_outcome<V, R, L, FA: Fn(V, V, L, L) -> V>(
    advance: FA,
    delta_time: L,
    gain: L,
    before: Seq<VerletPoint<V, R, L>>,
    one: Seq<VerletPoint<V, R, L>>,
    other: Seq<VerletPoint<V, R, L>>,
)
    requires
        forall|c: V, p: V, t: L, g: L, x: V, y: V|
            call_ensures(advance, (c, p, t, g), x) && call_ensures(advance, (c, p, t, g), y) ==> x
                == y,
        integrated(advance, delta_time, gain, before, one),
        integrated(advance, delta_time, gain, before, other),
    ensures
        one == other,
{
    assert forall|i: int| 0 <= i < before.len() implies one[i] == other[i] by {
        if i >= 1 {
            assert(advanced(advance, delta_time, gain, before[i], one[i]));
            assert(advanced(advance, delta_time, gain, before[i], other[i]));
        }
    }
    assert(one =~= other);
}

} // verus!
