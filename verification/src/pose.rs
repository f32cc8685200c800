//! Turning the relaxed chain back into local joint transforms.
//!
//! The `pose` kernel does the arithmetic: from the anchor's world transform,
//! a joint's world position, the position it aims at (if any) and the joint's
//! rest rotation, it gives the joint's local transform. This module decides
//! which joints are written and what each kernel call is given.

use crate::state::{JointSample, VerletPoint};
use vstd::prelude::*;

verus! {

/// What joint `joint` looks toward: the point after it, or nothing for the
/// last joint of the chain, which keeps a translation-only transform.
pub open spec fn aim_of<V, R, L>(points: Seq<VerletPoint<V, R, L>>, joint: int) -> Option<V> {
    if joint + 1 < points.len() {
        Some(points[joint + 1].current)
    } else {
        None
    }
}

/// Whether joint `joint` gets a transform: never the anchor, and a later
/// joint only while it resolves to a live node.
pub open spec fn is_written(live: Seq<bool>, joint: int) -> bool {
    1 <= joint < live.len() && live[joint]
}

/// `local` is a transform the kernel gives for joint `joint` of `points`.
pub open spec fn posed<V, R, L, T, FP: Fn(JointSample<V, R>, V, Option<V>, R) -> T>(
    pose: FP,
    anchor: JointSample<V, R>,
    points: Seq<VerletPoint<V, R, L>>,
    joint: int,
    local: T,
) -> bool {
    call_ensures(
        pose,
        (anchor, points[joint].current, aim_of(points, joint), points[joint].rest_rotation),
        local,
    )
}

/// `poses` holds, for every joint, its new local transform or `None` where
/// the joint is not written.
pub open spec fn synthesized<V, R, L, T, FP: Fn(JointSample<V, R>, V, Option<V>, R) -> T>(
    pose: FP,
    anchor: JointSample<V, R>,
    points: Seq<VerletPoint<V, R, L>>,
    live: Seq<bool>,
    poses: Seq<Option<T>>,
) -> bool {
    &&& poses.len() == points.len()
    &&& forall|joint: int|
        0 <= joint < points.len() ==> match #[trigger] poses[joint] {
            Some(local) => is_written(live, joint) && posed(pose, anchor, points, joint, local),
            None => !is_written(live, joint),
        }
}

/// Computes the local transform of every joint that is written. A joint that
/// no longer resolves is skipped; the joints after it are still done.
pub fn synthesize<
    V: Copy,
    R: Copy,
    L: Copy,
    T,
    FP: Fn(JointSample<V, R>, V, Option<V>, R) -> T,
>(
    points: &Vec<VerletPoint<V, R, L>>,
    anchor: JointSample<V, R>,
    live: &Vec<bool>,
    pose: &FP,
) -> (poses: Vec<Option<T>>)
    requires
        forall|a: JointSample<V, R>, at: V, aim: Option<V>, rest: R|
            call_requires(*pose, (a, at, aim, rest)),
    ensures
        synthesized(*pose, anchor, points@, live@, poses@),
{
    let mut poses: Vec<Option<T>> = Vec::new();
    let mut joint: usize = 0;
    while joint < points.len()
        invariant
            joint <= points.len(),
            poses.len() == joint,
            forall|a: JointSample<V, R>, at: V, aim: Option<V>, rest: R|
                call_requires(*pose, (a, at, aim, rest)),
            forall|k: int|
                0 <= k < joint ==> match #[trigger] poses[k] {
                    Some(local) => is_written(live@, k) && posed(*pose, anchor, points@, k, local),
                    None => !is_written(live@, k),
                },
        decreases points.len() - joint,
    {
        if joint >= 1 && joint < live.len() && live[joint] {
            let aim = if joint + 1 < points.len() {
                Some(points[joint + 1].current)
            } else {
                None
            };
            let local = pose(anchor, points[joint].current, aim, points[joint].rest_rotation);
            poses.push(Some(local));
        } else {
            poses.push(None);
        }
        joint += 1;
    }
    poses
}

/// A joint that goes missing costs only its own transform: between two runs
/// on the same chain whose live joints differ in `missing` alone, every other
/// joint is written in both or in neither, and what the second run wrote for
/// it is a transform the first run could have written.
pub proof fn lemma_missing_joint_spares_others<
    V,
    R,
    L,
    T,
    FP: Fn(JointSample<V, R>, V, Option<V>, R) -> T,
>(
    pose: FP,
    anchor: JointSample<V, R>,
    points: Seq<VerletPoint<V, R, L>>,
    live: Seq<bool>,
    missing: int,
    poses: Seq<Option<T>>,
    poses_without: Seq<Option<T>>,
)
    requires
        0 <= missing < live.len(),
        synthesized(pose, anchor, points, live, poses),
        synthesized(pose, anchor, points, live.update(missing, false), poses_without),
    ensures
        poses_without.len() == poses.len(),
        missing < poses_without.len() ==> poses_without[missing] is None,
        forall|joint: int|
            0 <= joint < poses.len() && joint != missing ==> {
                &&& (#[trigger] poses_without[joint]) is Some <==> poses[joint] is Some
                &&& poses_without[joint] is Some ==> posed(
                    pose,
                    anchor,
                    points,
                    joint,
                    poses_without[joint]->0,
                )
            },
{
    let without = live.update(missing, false);
    assert forall|joint: int| 0 <= joint < poses.len() && joint != missing implies {
        &&& (#[trigger] poses_without[joint]) is Some <==> poses[joint] is Some
        &&& poses_without[joint] is Some ==> posed(
            pose,
            anchor,
            points,
            joint,
            poses_without[joint]->0,
        )
    } by {
        assert(is_written(without, joint) == is_written(live, joint));
        let first = poses[joint];
        let second = poses_without[joint];
    }
    if missing < poses_without.len() {
        assert(!is_written(without, missing));
        let at_missing = poses_without[missing];
    }
}

/// With a `pose` kernel that gives one value for one set of arguments, one
/// chain and one set of live joints give one set of transforms.
pub proof fn lemma_synthesized_one_outcome<
    V,
    R,
    L,
    T,
    FP: Fn(JointSample<V, R>, V, Option<V>, R) -> T,
>(
    pose: FP,
    anchor: JointSample<V, R>,
    points: Seq<VerletPoint<V, R, L>>,
    live: Seq<bool>,
    one: Seq<Option<T>>,
    other: Seq<Option<T>>,
)
    requires
        forall|a: JointSample<V, R>, at: V, aim: Option<V>, rest: R, x: T, y: T|
            call_ensures(pose, (a, at, aim, rest), x) && call_ensures(pose, (a, at, aim, rest), y)
                ==> x == y,
        synthesized(pose, anchor, points, live, one),
        synthesized(pose, anchor, points, live, other),
    ensures
        one == other,
{
    assert forall|joint: int| 0 <= joint < points.len() implies one[joint] == other[joint] by {
        let first = one[joint];
        let second = other[joint];
        if is_written(live, joint) {
            assert(first is Some && second is Some);
            assert(posed(pose, anchor, points, joint, first->0));
            assert(posed(pose, anchor, points, joint, second->0));
        }
    }
    assert(one =~= other);
}

} // verus!
