//! Turning the body, and a head joint, toward the direction of travel.
//!
//! Three kernels do the arithmetic. `turn_body(body)` slews the body's
//! rotation toward the flattened velocity; `turn_head(body, head)` slews the
//! head joint's local rotation toward the raw velocity, seen from the given
//! body rotation; `single_axis(rotation)` keeps the one component the head
//! may turn about. This module fixes when they run and on what.

use vstd::prelude::*;

verus! {

/// `kept` is the head rotation that follows from the body rotation `body`:
/// slewed by `turn_head`, then reduced by `single_axis`.
pub open spec fn head_turned<R, FH: Fn(R, R) -> R, FA: Fn(R) -> R>(
    turn_head: FH,
    single_axis: FA,
    body: R,
    head: R,
    kept: R,
) -> bool {
    exists|slewed: R| #[trigger]
        call_ensures(turn_head, (body, head), slewed) && call_ensures(single_axis, (slewed,), kept)
}

/// What a frame makes of the two rotations. Below the speed threshold
/// (`moving` is false) nothing turns and nothing is to be written. Above it
/// the body turns; a head joint that resolves is then turned from the body's
/// new rotation.
pub open spec fn oriented<R, FB: Fn(R) -> R, FH: Fn(R, R) -> R, FA: Fn(R) -> R>(
    turn_body: FB,
    turn_head: FH,
    single_axis: FA,
    moving: bool,
    body: R,
    head: Option<R>,
    turned: Option<(R, Option<R>)>,
) -> bool {
    match turned {
        None => !moving,
        Some((new_body, new_head)) => {
            &&& moving
            &&& call_ensures(turn_body, (body,), new_body)
            &&& match head {
                None => new_head is None,
                Some(local) => new_head is Some && head_turned(
                    turn_head,
                    single_axis,
                    new_body,
                    local,
                    new_head->0,
                ),
            }
        },
    }
}

/// Reorients the body and, where there is one, the head joint. Gives the new
/// body rotation and the new local rotation of the head, or `None` where
/// the character is too slow for either to turn.
pub fn orient<R: Copy, FB: Fn(R) -> R, FH: Fn(R, R) -> R, FA: Fn(R) -> R>(
    body: R,
    head: Option<R>,
    moving: bool,
    turn_body: &FB,
    turn_head: &FH,
    single_axis: &FA,
) -> (turned: Option<(R, Option<R>)>)
    requires
        forall|r: R| call_requires(*turn_body, (r,)),
        forall|b: R, h: R| call_requires(*turn_head, (b, h)),
        forall|r: R| call_requires(*single_axis, (r,)),
    ensures
        oriented(*turn_body, *turn_head, *single_axis, moving, body, head, turned),
{
    if !moving {
        return None;
    }
    let new_body = turn_body(body);
    match head {
        None => Some((new_body, None)),
        Some(local) => {
            let slewed = turn_head(new_body, local);
            let kept = single_axis(slewed);
            Some((new_body, Some(kept)))
        },
    }
}

} // verus!
