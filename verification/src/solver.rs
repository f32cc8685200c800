//! Iterative distance-constraint relaxation of the chain.
//!
//! A pass pins the anchor and then walks down the chain once, putting every
//! point at its segment's length from the point before it. Two kernels do the
//! arithmetic: `direction(parent, current)` gives the unit direction from
//! `parent` towards `current`, or `None` when the two coincide too closely to
//! have one; `place(parent, direction, length, speed_scale)` gives the point
//! that lies `length` times `speed_scale` along `direction` from `parent`.
//! Where there is no direction, the pass uses the caller's fallback
//! direction.

use crate::state::VerletPoint;
use vstd::prelude::*;

verus! {

/// Number of passes per frame.
pub const RELAXATION_PASSES: usize = 3;

/// The direction a point is put along: the one the kernel found, or the
/// fallback.
pub open spec fn chosen_direction<V>(found: Option<V>, fallback: V) -> V {
    match found {
        Some(direction) => direction,
        None => fallback,
    }
}

/// `out` is where a pass puts a point that stood at `current`, behind a
/// predecessor at `parent`, on a segment of rest length `length`: along the
/// direction from `parent` to `current`, or along `fallback` where the two
/// have none.
pub open spec fn placed<V, L, FD: Fn(V, V) -> Option<V>, FP: Fn(V, V, L, L) -> V>(
    direction: FD,
    place: FP,
    fallback: V,
    speed_scale: L,
    parent: V,
    current: V,
    length: L,
    out: V,
) -> bool {
    exists|found: Option<V>| #[trigger]
        call_ensures(direction, (parent, current), found) && call_ensures(
            place,
            (parent, chosen_direction(found, fallback), length, speed_scale),
            out,
        )
}

/// The two states hold the same history and rest data, point by point.
pub open spec fn same_rest_data<V, R, L>(
    before: Seq<VerletPoint<V, R, L>>,
    after: Seq<VerletPoint<V, R, L>>,
) -> bool {
    &&& after.len() == before.len()
    &&& forall|i: int|
        0 <= i < before.len() ==> {
            &&& (#[trigger] after[i]).previous == before[i].previous
            &&& after[i].rest_rotation == before[i].rest_rotation
            &&& after[i].segment_length == before[i].segment_length
        }
}

/// One relaxation pass: the anchor sits on `anchor`, and every later point is
/// placed from the new position of its predecessor and its own old position.
pub open spec fn relaxed_once<V, R, L, FD: Fn(V, V) -> Option<V>, FP: Fn(V, V, L, L) -> V>(
    direction: FD,
    place: FP,
    anchor: V,
    fallback: V,
    speed_scale: L,
    before: Seq<VerletPoint<V, R, L>>,
    after: Seq<VerletPoint<V, R, L>>,
) -> bool {
    &&& same_rest_data(before, after)
    &&& before.len() > 0 ==> after[0].current == anchor
    &&& forall|i: int|
        1 <= i < before.len() ==> placed(
            direction,
            place,
            fallback,
            speed_scale,
            after[i - 1].current,
            before[i].current,
            before[i].segment_length,
            (#[trigger] after[i]).current,
        )
}

/// `passes` relaxation passes in a row.
pub open spec fn relaxed<V, R, L, FD: Fn(V, V) -> Option<V>, FP: Fn(V, V, L, L) -> V>(
    direction: FD,
    place: FP,
    anchor: V,
    fallback: V,
    speed_scale: L,
    before: Seq<VerletPoint<V, R, L>>,
    after: Seq<VerletPoint<V, R, L>>,
    passes: nat,
) -> bool
    decreases passes,
{
    if passes == 0 {
        after == before
    } else {
        exists|middle: Seq<VerletPoint<V, R, L>>|
            relaxed(
                direction,
                place,
                anchor,
                fallback,
                speed_scale,
                before,
                middle,
                (passes - 1) as nat,
            ) && #[trigger] relaxed_once(
                direction,
                place,
                anchor,
                fallback,
                speed_scale,
                middle,
                after,
            )
    }
}

/// Places one point behind its predecessor, along the direction towards its
/// old position, or along `fallback` when the kernel finds no direction.
pub fn place_behind<V: Copy, L: Copy, FD: Fn(V, V) -> Option<V>, FP: Fn(V, V, L, L) -> V>(
    parent: V,
    current: V,
    length: L,
    fallback: V,
    speed_scale: L,
    direction: &FD,
    place: &FP,
) -> (out: V)
    requires
        forall|a: V, b: V| call_requires(*direction, (a, b)),
        forall|p: V, d: V, l: L, s: L| call_requires(*place, (p, d, l, s)),
    ensures
        placed(*direction, *place, fallback, speed_scale, parent, current, length, out),
{
    let found = direction(parent, current);
    let along = match found {
        Some(unit) => unit,
        None => fallback,
    };
    assert(along == chosen_direction(found, fallback));
    place(parent, along, length, speed_scale)
}

/// Runs one relaxation pass over the chain. An empty chain is left empty.
pub fn relax_once<
    V: Copy,
    R: Copy,
    L: Copy,
    FD: Fn(V, V) -> Option<V>,
    FP: Fn(V, V, L, L) -> V,
>(
    points: &mut Vec<VerletPoint<V, R, L>>,
    anchor: V,
    fallback: V,
    speed_scale: L,
    direction: &FD,
    place: &FP,
)
    requires
        forall|a: V, b: V| call_requires(*direction, (a, b)),
        forall|p: V, d: V, l: L, s: L| call_requires(*place, (p, d, l, s)),
    ensures
        relaxed_once(
            *direction,
            *place,
            anchor,
            fallback,
            speed_scale,
            old(points)@,
            final(points)@,
        ),
{
    let ghost before = points@;
    if points.len() == 0 {
        return ;
    }
    let first = points[0];
    points[0] = VerletPoint {
        current: anchor,
        previous: first.previous,
        rest_rotation: first.rest_rotation,
        segment_length: first.segment_length,
    };
    let mut i: usize = 1;
    while i < points.len()
        invariant
            1 <= i,
            before.len() > 0,
            points.len() == before.len(),
            forall|a: V, b: V| call_requires(*direction, (a, b)),
            forall|p: V, d: V, l: L, s: L| call_requires(*place, (p, d, l, s)),
            points[0].current == anchor,
            forall|k: int|
                0 <= k < before.len() ==> {
                    &&& (#[trigger] points[k]).previous == before[k].previous
                    &&& points[k].rest_rotation == before[k].rest_rotation
                    &&& points[k].segment_length == before[k].segment_length
                },
            forall|k: int|
                1 <= k < i && k < before.len() ==> placed(
                    *direction,
                    *place,
                    fallback,
                    speed_scale,
                    points[k - 1].current,
                    before[k].current,
                    before[k].segment_length,
                    (#[trigger] points[k]).current,
                ),
            forall|k: int|
                i <= k < before.len() ==> (#[trigger] points[k]).current == before[k].current,
        decreases points.len() - i,
    {
        let parent = points[i - 1].current;
        let point = points[i];
        let ghost earlier = points@;
        let moved = place_behind(
            parent,
            point.current,
            point.segment_length,
            fallback,
            speed_scale,
            direction,
            place,
        );
        points[i] = VerletPoint {
            current: moved,
            previous: point.previous,
            rest_rotation: point.rest_rotation,
            segment_length: point.segment_length,
        };
        proof {
            assert forall|k: int| 1 <= k < i + 1 && k < before.len() implies placed(
                *direction,
                *place,
                fallback,
                speed_scale,
                points[k - 1].current,
                before[k].current,
                before[k].segment_length,
                (#[trigger] points[k]).current,
            ) by {
                if k < i {
                    assert(points[k] == earlier[k]);
                    assert(points[k - 1] == earlier[k - 1]);
                }
            }
        }
        i += 1;
    }
}

/// Runs `passes` relaxation passes (by convention `RELAXATION_PASSES`), never
/// stopping early.
pub fn relax<V: Copy, R: Copy, L: Copy, FD: Fn(V, V) -> Option<V>, FP: Fn(V, V, L, L) -> V>(
    points: &mut Vec<VerletPoint<V, R, L>>,
    anchor: V,
    fallback: V,
    speed_scale: L,
    passes: usize,
    direction: &FD,
    place: &FP,
)
    requires
        forall|a: V, b: V| call_requires(*direction, (a, b)),
        forall|p: V, d: V, l: L, s: L| call_requires(*place, (p, d, l, s)),
    ensures
        relaxed(
            *direction,
            *place,
            anchor,
            fallback,
            speed_scale,
            old(points)@,
            final(points)@,
            passes as nat,
        ),
{
    let ghost before = points@;
    let mut done: usize = 0;
    while done < passes
        invariant
            done <= passes,
            forall|a: V, b: V| call_requires(*direction, (a, b)),
            forall|p: V, d: V, l: L, s: L| call_requires(*place, (p, d, l, s)),
            relaxed(
                *direction,
                *place,
                anchor,
                fallback,
                speed_scale,
                before,
                points@,
                done as nat,
            ),
        decreases passes - done,
    {
        let ghost middle = points@;
        relax_once(points, anchor, fallback, speed_scale, direction, place);
        assert(relaxed(
            *direction,
            *place,
            anchor,
            fallback,
            speed_scale,
            before,
            middle,
            ((done + 1) - 1) as nat,
        ));
        done += 1;
    }
}

/// The chain as it stood before the last of `passes` passes.
pub proof fn last_pass<V, R, L, FD: Fn(V, V) -> Option<V>, FP: Fn(V, V, L, L) -> V>(
    direction: FD,
    place: FP,
    anchor: V,
    fallback: V,
    speed_scale: L,
    before: Seq<VerletPoint<V, R, L>>,
    after: Seq<VerletPoint<V, R, L>>,
    passes: nat,
) -> (middle: Seq<VerletPoint<V, R, L>>)
    requires
        relaxed(direction, place, anchor, fallback, speed_scale, before, after, passes),
        passes >= 1,
    ensures
        relaxed(
            direction,
            place,
            anchor,
            fallback,
            speed_scale,
            before,
            middle,
            (passes - 1) as nat,
        ),
        relaxed_once(direction, place, anchor, fallback, speed_scale, middle, after),
{
    choose|middle: Seq<VerletPoint<V, R, L>>|
        relaxed(
            direction,
            place,
            anchor,
            fallback,
            speed_scale,
            before,
            middle,
            (passes - 1) as nat,
        ) && #[trigger] relaxed_once(direction, place, anchor, fallback, speed_scale, middle, after)
}

/// Passes keep the length of the chain and each point's history, rest
/// rotation and segment length.
pub proof fn lemma_relaxed_keeps_rest_data<
    V,
    R,
    L,
    FD: Fn(V, V) -> Option<V>,
    FP: Fn(V, V, L, L) -> V,
>(
    direction: FD,
    place: FP,
    anchor: V,
    fallback: V,
    speed_scale: L,
    before: Seq<VerletPoint<V, R, L>>,
    after: Seq<VerletPoint<V, R, L>>,
    passes: nat,
)
    requires
        relaxed(direction, place, anchor, fallback, speed_scale, before, after, passes),
    ensures
        same_rest_data(before, after),
    decreases passes,
{
    if passes > 0 {
        let middle = last_pass(
            direction,
            place,
            anchor,
            fallback,
            speed_scale,
            before,
            after,
            passes,
        );
        lemma_relaxed_keeps_rest_data(
            direction,
            place,
            anchor,
            fallback,
            speed_scale,
            before,
            middle,
            (passes - 1) as nat,
        );
        assert forall|i: int| 0 <= i < before.len() implies {
            &&& (#[trigger] after[i]).previous == before[i].previous
            &&& after[i].rest_rotation == before[i].rest_rotation
            &&& after[i].segment_length == before[i].segment_length
        } by {
            assert(middle[i].previous == before[i].previous);
        }
    }
}

/// The pin: after one pass or more, however many, the anchor point sits
/// exactly on the anchor position.
pub proof fn lemma_anchor_pinned<V, R, L, FD: Fn(V, V) -> Option<V>, FP: Fn(V, V, L, L) -> V>(
    direction: FD,
    place: FP,
    anchor: V,
    fallback: V,
    speed_scale: L,
    before: Seq<VerletPoint<V, R, L>>,
    after: Seq<VerletPoint<V, R, L>>,
    passes: nat,
)
    requires
        relaxed(direction, place, anchor, fallback, speed_scale, before, after, passes),
        passes >= 1,
        before.len() >= 1,
    ensures
        after.len() == before.len(),
        after[0].current == anchor,
{
    let middle = last_pass(
        direction,
        place,
        anchor,
        fallback,
        speed_scale,
        before,
        after,
        passes,
    );
    lemma_relaxed_keeps_rest_data(
        direction,
        place,
        anchor,
        fallback,
        speed_scale,
        before,
        middle,
        (passes - 1) as nat,
    );
}

/// Length preservation, as far as it is the solver's doing: whatever the
/// `place` kernel guarantees, at this speed scale, between a parent, a
/// length and the point it returns (`holds`), that holds after one pass or
/// more between every point, its final predecessor and its own rest length.
/// With a kernel that at speed scale one puts the point `length` away from
/// `parent`, every segment then has its rest length.
pub proof fn lemma_segments_hold<V, R, L, FD: Fn(V, V) -> Option<V>, FP: Fn(V, V, L, L) -> V>(
    direction: FD,
    place: FP,
    anchor: V,
    fallback: V,
    speed_scale: L,
    before: Seq<VerletPoint<V, R, L>>,
    after: Seq<VerletPoint<V, R, L>>,
    passes: nat,
    holds: spec_fn(V, L, V) -> bool,
)
    requires
        relaxed(direction, place, anchor, fallback, speed_scale, before, after, passes),
        passes >= 1,
        forall|parent: V, along: V, length: L, out: V|
            call_ensures(place, (parent, along, length, speed_scale), out) ==> holds(
                parent,
                length,
                out,
            ),
    ensures
        after.len() == before.len(),
        forall|i: int|
            1 <= i < after.len() ==> holds(
                after[i - 1].current,
                before[i].segment_length,
                (#[trigger] after[i]).current,
            ),
        forall|i: int|
            0 <= i < after.len() ==> (#[trigger] after[i]).segment_length
                == before[i].segment_length,
{
    let middle = last_pass(
        direction,
        place,
        anchor,
        fallback,
        speed_scale,
        before,
        after,
        passes,
    );
    lemma_relaxed_keeps_rest_data(
        direction,
        place,
        anchor,
        fallback,
        speed_scale,
        before,
        middle,
        (passes - 1) as nat,
    );
    lemma_relaxed_keeps_rest_data(
        direction,
        place,
        anchor,
        fallback,
        speed_scale,
        before,
        after,
        passes,
    );
    assert forall|i: int| 1 <= i < after.len() implies holds(
        after[i - 1].current,
        before[i].segment_length,
        (#[trigger] after[i]).current,
    ) by {
        assert(placed(
            direction,
            place,
            fallback,
            speed_scale,
            after[i - 1].current,
            middle[i].current,
            middle[i].segment_length,
            after[i].current,
        ));
        assert(middle[i].segment_length == before[i].segment_length);
    }
}

/// A chain is settled on `anchor` when its anchor point sits there and a
/// pass would put every point back where it is.
pub open spec fn settled<V, R, L, FD: Fn(V, V) -> Option<V>, FP: Fn(V, V, L, L) -> V>(
    direction: FD,
    place: FP,
    anchor: V,
    fallback: V,
    speed_scale: L,
    points: Seq<VerletPoint<V, R, L>>,
) -> bool {
    &&& points.len() > 0 ==> points[0].current == anchor
    &&& forall|i: int, out: V|
        1 <= i < points.len() && #[trigger] placed(
            direction,
            place,
            fallback,
            speed_scale,
            points[i - 1].current,
            points[i].current,
            points[i].segment_length,
            out,
        ) ==> out == points[i].current
}

/// A pass over a settled chain leaves the first `upto` points as they were.
proof fn lemma_settled_prefix<V, R, L, FD: Fn(V, V) -> Option<V>, FP: Fn(V, V, L, L) -> V>(
    direction: FD,
    place: FP,
    anchor: V,
    fallback: V,
    speed_scale: L,
    before: Seq<VerletPoint<V, R, L>>,
    after: Seq<VerletPoint<V, R, L>>,
    upto: nat,
)
    requires
        settled(direction, place, anchor, fallback, speed_scale, before),
        relaxed_once(direction, place, anchor, fallback, speed_scale, before, after),
        upto <= before.len(),
    ensures
        forall|i: int| 0 <= i < upto ==> #[trigger] after[i] == before[i],
    decreases upto,
{
    if upto > 0 {
        lemma_settled_prefix(
            direction,
            place,
            anchor,
            fallback,
            speed_scale,
            before,
            after,
            (upto - 1) as nat,
        );
        let last = upto - 1;
        assert(after[last].previous == before[last].previous);
        if last >= 1 {
            assert(after[last - 1] == before[last - 1]);
            assert(placed(
                direction,
                place,
                fallback,
                speed_scale,
                before[last - 1].current,
                before[last].current,
                before[last].segment_length,
                after[last].current,
            ));
        }
    }
}

/// A settled chain stays settled: passes over it, however many, change
/// nothing.
pub proof fn lemma_settled_chain_stays<V, R, L, FD: Fn(V, V) -> Option<V>, FP: Fn(V, V, L, L) -> V>(
    direction: FD,
    place: FP,
    anchor: V,
    fallback: V,
    speed_scale: L,
    before: Seq<VerletPoint<V, R, L>>,
    after: Seq<VerletPoint<V, R, L>>,
    passes: nat,
)
    requires
        settled(direction, place, anchor, fallback, speed_scale, before),
        relaxed(direction, place, anchor, fallback, speed_scale, before, after, passes),
    ensures
        after == before,
    decreases passes,
{
    if passes > 0 {
        let middle = last_pass(
            direction,
            place,
            anchor,
            fallback,
            speed_scale,
            before,
            after,
            passes,
        );
        lemma_settled_chain_stays(
            direction,
            place,
            anchor,
            fallback,
            speed_scale,
            before,
            middle,
            (passes - 1) as nat,
        );
        lemma_settled_prefix(
            direction,
            place,
            anchor,
            fallback,
            speed_scale,
            before,
            after,
            before.len(),
        );
        assert(after =~= before);
    }
}

/// Degenerate directions: where the `direction` kernel finds no direction
/// between a point and its predecessor, the point is placed along the
/// fallback, so it is as sound a point as the `place` kernel returns for
/// the fallback.
pub proof fn lemma_degenerate_uses_fallback<
    V,
    L,
    FD: Fn(V, V) -> Option<V>,
    FP: Fn(V, V, L, L) -> V,
>(
    direction: FD,
    place: FP,
    fallback: V,
    speed_scale: L,
    parent: V,
    current: V,
    length: L,
    out: V,
)
    requires
        placed(direction, place, fallback, speed_scale, parent, current, length, out),
        forall|found: Option<V>|
            call_ensures(direction, (parent, current), found) ==> found is None,
    ensures
        call_ensures(place, (parent, fallback, length, speed_scale), out),
{
    let found = choose|found: Option<V>| #[trigger]
        call_ensures(direction, (parent, current), found) && call_ensures(
            place,
            (parent, chosen_direction(found, fallback), length, speed_scale),
            out,
        );
    assert(found is None);
}

/// Both kernels give one value for one set of arguments.
pub open spec fn one_placement<V, L, FD: Fn(V, V) -> Option<V>, FP: Fn(V, V, L, L) -> V>(
    direction: FD,
    place: FP,
) -> bool {
    &&& forall|a: V, b: V, x: Option<V>, y: Option<V>|
        call_ensures(direction, (a, b), x) && call_ensures(direction, (a, b), y) ==> x == y
    &&& forall|p: V, d: V, l: L, s: L, x: V, y: V|
        call_ensures(place, (p, d, l, s), x) && call_ensures(place, (p, d, l, s), y) ==> x == y
}

/// With such kernels a point has one place behind its predecessor.
pub proof fn lemma_placed_one_outcome<V, L, FD: Fn(V, V) -> Option<V>, FP: Fn(V, V, L, L) -> V>(
    direction: FD,
    place: FP,
    fallback: V,
    speed_scale: L,
    parent: V,
    current: V,
    length: L,
    one: V,
    other: V,
)
    requires
        one_placement::<V, L, FD, FP>(direction, place),
        placed(direction, place, fallback, speed_scale, parent, current, length, one),
        placed(direction, place, fallback, speed_scale, parent, current, length, other),
    ensures
        one == other,
{
    let found_one = choose|found: Option<V>| #[trigger]
        call_ensures(direction, (parent, current), found) && call_ensures(
            place,
            (parent, chosen_direction(found, fallback), length, speed_scale),
            one,
        );
    let found_other = choose|found: Option<V>| #[trigger]
        call_ensures(direction, (parent, current), found) && call_ensures(
            place,
            (parent, chosen_direction(found, fallback), length, speed_scale),
            other,
        );
    assert(found_one == found_other);
}

/// Two outcomes of one pass agree on the first `upto` points.
proof fn lemma_pass_prefix_one_outcome<
    V,
    R,
    L,
    FD: Fn(V, V) -> Option<V>,
    FP: Fn(V, V, L, L) -> V,
>(
    direction: FD,
    place: FP,
    anchor: V,
    fallback: V,
    speed_scale: L,
    before: Seq<VerletPoint<V, R, L>>,
    one: Seq<VerletPoint<V, R, L>>,
    other: Seq<VerletPoint<V, R, L>>,
    upto: nat,
)
    requires
        one_placement::<V, L, FD, FP>(direction, place),
        relaxed_once(direction, place, anchor, fallback, speed_scale, before, one),
        relaxed_once(direction, place, anchor, fallback, speed_scale, before, other),
        upto <= before.len(),
    ensures
        forall|i: int| 0 <= i < upto ==> #[trigger] one[i] == other[i],
    decreases upto,
{
    if upto > 0 {
        lemma_pass_prefix_one_outcome(
            direction,
            place,
            anchor,
            fallback,
            speed_scale,
            before,
            one,
            other,
            (upto - 1) as nat,
        );
        let last = upto - 1;
        assert(one[last].previous == before[last].previous);
        assert(other[last].previous == before[last].previous);
        if last >= 1 {
            assert(one[last - 1] == other[last - 1]);
            assert(placed(
                direction,
                place,
                fallback,
                speed_scale,
                one[last - 1].current,
                before[last].current,
                before[last].segment_length,
                one[last].current,
            ));
            assert(placed(
                direction,
                place,
                fallback,
                speed_scale,
                other[last - 1].current,
                before[last].current,
                before[last].segment_length,
                other[last].current,
            ));
            lemma_placed_one_outcome(
                direction,
                place,
                fallback,
                speed_scale,
                one[last - 1].current,
                before[last].current,
                before[last].segment_length,
                one[last].current,
                other[last].current,
            );
        }
    }
}

/// With kernels that give one value for one set of arguments, relaxation
/// gives one chain for one chain, anchor position and number of passes.
pub proof fn lemma_relaxed_one_outcome<
    V,
    R,
    L,
    FD: Fn(V, V) -> Option<V>,
    FP: Fn(V, V, L, L) -> V,
>(
    direction: FD,
    place: FP,
    anchor: V,
    fallback: V,
    speed_scale: L,
    before: Seq<VerletPoint<V, R, L>>,
    one: Seq<VerletPoint<V, R, L>>,
    other: Seq<VerletPoint<V, R, L>>,
    passes: nat,
)
    requires
        one_placement::<V, L, FD, FP>(direction, place),
        relaxed(direction, place, anchor, fallback, speed_scale, before, one, passes),
        relaxed(direction, place, anchor, fallback, speed_scale, before, other, passes),
    ensures
        one == other,
    decreases passes,
{
    if passes > 0 {
        let middle_one = last_pass(
            direction,
            place,
            anchor,
            fallback,
            speed_scale,
            before,
            one,
            passes,
        );
        let middle_other = last_pass(
            direction,
            place,
            anchor,
            fallback,
            speed_scale,
            before,
            other,
            passes,
        );
        lemma_relaxed_one_outcome(
            direction,
            place,
            anchor,
            fallback,
            speed_scale,
            before,
            middle_one,
            middle_other,
            (passes - 1) as nat,
        );
        lemma_pass_prefix_one_outcome(
            direction,
            place,
            anchor,
            fallback,
            speed_scale,
            middle_one,
            one,
            other,
            middle_one.len(),
        );
        assert(one =~= other);
    }
}

} // verus!
