//! One frame of the tail: initialize if needed, integrate, relax, synthesize.

use crate::integrator::{
    integrate, integrated, lemma_integrated_one_outcome, lemma_still_chain_stays,
};
use crate::pose::{is_written, lemma_synthesized_one_outcome, synthesize, synthesized};
use crate::solver::{
    lemma_anchor_pinned, lemma_relaxed_keeps_rest_data, lemma_relaxed_one_outcome,
    lemma_settled_chain_stays, one_placement, relax, relaxed, settled, RELAXATION_PASSES,
};
use crate::state::{
    all_resolved, initialized, lemma_initialized_one_outcome, rest_point, resolved_samples,
    JointSample, VerletChainState, VerletPoint,
};
use vstd::prelude::*;

verus! {

/// What a frame is run with, besides the scene.
#[derive(Clone, Copy)]
pub struct FrameInput<V, L> {
    /// Time since the frame before.
    pub delta_time: L,
    /// How strongly residual velocity carries down the chain.
    pub integration_gain: L,
    /// The speed signal, as a multiplier of the rest lengths.
    pub speed_scale: L,
    /// The length zero, which a rebuilt buffer records for the anchor.
    pub zero_length: L,
    /// The direction along which a collapsed segment is laid out.
    pub fallback: V,
}

/// Which joints of the scene resolve.
pub open spec fn liveness<V, R>(scene: Seq<Option<JointSample<V, R>>>) -> Seq<bool> {
    Seq::new(scene.len(), |i: int| scene[i] is Some)
}

/// No joint is written.
pub open spec fn nothing_written<T>(joints: nat, poses: Seq<Option<T>>) -> bool {
    &&& poses.len() == joints
    &&& forall|joint: int| 0 <= joint < joints ==> (#[trigger] poses[joint]) is None
}

/// A frame with a live anchor joint, stage by stage. The buffer goes through
/// the initialization rule, which leaves it as `ready`. A buffer that then
/// does not fit the chain is left as it is and nothing is written. One that
/// fits is integrated, which leaves it as `moved`, relaxed with the anchor
/// pinned to the anchor joint's position, and turned into transforms.
pub open spec fn staged<
    V,
    R,
    L,
    T,
    FL: Fn(V, V) -> L,
    FA: Fn(V, V, L, L) -> V,
    FD: Fn(V, V) -> Option<V>,
    FP: Fn(V, V, L, L) -> V,
    FT: Fn(JointSample<V, R>, V, Option<V>, R) -> T,
>(
    distance: FL,
    advance: FA,
    direction: FD,
    place: FP,
    pose: FT,
    input: FrameInput<V, L>,
    scene: Seq<Option<JointSample<V, R>>>,
    before: Seq<VerletPoint<V, R, L>>,
    after: Seq<VerletPoint<V, R, L>>,
    poses: Seq<Option<T>>,
    ready: Seq<VerletPoint<V, R, L>>,
    moved: Seq<VerletPoint<V, R, L>>,
) -> bool {
    &&& initialized(distance, input.zero_length, scene, before, ready)
    &&& if ready.len() != scene.len() {
        after == ready && nothing_written(scene.len(), poses)
    } else {
        &&& integrated(advance, input.delta_time, input.integration_gain, ready, moved)
        &&& relaxed(
            direction,
            place,
            scene[0]->0.translation,
            input.fallback,
            input.speed_scale,
            moved,
            after,
            RELAXATION_PASSES as nat,
        )
        &&& synthesized(pose, scene[0]->0, after, liveness(scene), poses)
    }
}

/// One frame. Without a live anchor joint the frame does nothing. Otherwise
/// it goes through its stages.
pub open spec fn updated<
    V,
    R,
    L,
    T,
    FL: Fn(V, V) -> L,
    FA: Fn(V, V, L, L) -> V,
    FD: Fn(V, V) -> Option<V>,
    FP: Fn(V, V, L, L) -> V,
    FT: Fn(JointSample<V, R>, V, Option<V>, R) -> T,
>(
    distance: FL,
    advance: FA,
    direction: FD,
    place: FP,
    pose: FT,
    input: FrameInput<V, L>,
    scene: Seq<Option<JointSample<V, R>>>,
    before: Seq<VerletPoint<V, R, L>>,
    after: Seq<VerletPoint<V, R, L>>,
    poses: Seq<Option<T>>,
) -> bool {
    if scene.len() == 0 || scene[0] is None {
        after == before && nothing_written(scene.len(), poses)
    } else {
        exists|ready: Seq<VerletPoint<V, R, L>>, moved: Seq<VerletPoint<V, R, L>>| #[trigger]
            staged(
                distance,
                advance,
                direction,
                place,
                pose,
                input,
                scene,
                before,
                after,
                poses,
                ready,
                moved,
            )
    }
}

/// `joints` times `None`.
fn write_nothing<T>(joints: usize) -> (poses: Vec<Option<T>>)
    ensures
        nothing_written(joints as nat, poses@),
{
    let mut poses: Vec<Option<T>> = Vec::new();
    let mut joint: usize = 0;
    while joint < joints
        invariant
            joint <= joints,
            poses.len() == joint,
            forall|k: int| 0 <= k < joint ==> (#[trigger] poses[k]) is None,
        decreases joints - joint,
    {
        poses.push(None);
        joint += 1;
    }
    poses
}

/// Which joints of the scene resolve.
fn live_joints<V, R>(scene: &Vec<Option<JointSample<V, R>>>) -> (live: Vec<bool>)
    ensures
        live@ == liveness(scene@),
{
    let mut live: Vec<bool> = Vec::new();
    let mut joint: usize = 0;
    while joint < scene.len()
        invariant
            joint <= scene.len(),
            live.len() == joint,
            forall|k: int| 0 <= k < joint ==> #[trigger] live[k] == (scene[k] is Some),
        decreases scene.len() - joint,
    {
        live.push(scene[joint].is_some());
        joint += 1;
    }
    assert(live@ =~= liveness(scene@));
    live
}

/// Runs one frame of the tail for one character.
///
/// `scene` holds the world transform of every joint of the chain, anchor
/// first, or `None` where the joint does not resolve to a live node. The
/// result holds, joint by joint, the local transform to write, or `None`
/// where the joint is left untouched.
pub fn update_tail<
    V: Copy,
    R: Copy,
    L: Copy,
    T,
    FL: Fn(V, V) -> L,
    FA: Fn(V, V, L, L) -> V,
    FD: Fn(V, V) -> Option<V>,
    FP: Fn(V, V, L, L) -> V,
    FT: Fn(JointSample<V, R>, V, Option<V>, R) -> T,
>(
    state: &mut VerletChainState<V, R, L>,
    scene: &Vec<Option<JointSample<V, R>>>,
    input: FrameInput<V, L>,
    distance: &FL,
    advance: &FA,
    direction: &FD,
    place: &FP,
    pose: &FT,
) -> (poses: Vec<Option<T>>)
    requires
        forall|a: V, b: V| call_requires(*distance, (a, b)),
        forall|c: V, p: V, t: L, g: L| call_requires(*advance, (c, p, t, g)),
        forall|a: V, b: V| call_requires(*direction, (a, b)),
        forall|p: V, d: V, l: L, s: L| call_requires(*place, (p, d, l, s)),
        forall|a: JointSample<V, R>, at: V, aim: Option<V>, rest: R|
            call_requires(*pose, (a, at, aim, rest)),
    ensures
        updated(
            *distance,
            *advance,
            *direction,
            *place,
            *pose,
            input,
            scene@,
            old(state)@,
            final(state)@,
            poses@,
        ),
{
    if scene.len() == 0 {
        return write_nothing(0);
    }
    let anchor = match scene[0] {
        Some(sample) => sample,
        None => {
            return write_nothing(scene.len());
        },
    };
    let ready = state.ensure_initialized(scene, input.zero_length, distance);
    let ghost prepared = state@;
    if !ready {
        let poses = write_nothing(scene.len());
        assert(staged(
            *distance,
            *advance,
            *direction,
            *place,
            *pose,
            input,
            scene@,
            old(state)@,
            state@,
            poses@,
            prepared,
            prepared,
        ));
        return poses;
    }
    let mut points = state.take_points();
    integrate(&mut points, input.delta_time, input.integration_gain, advance);
    let ghost moved = points@;
    relax(
        &mut points,
        anchor.translation,
        input.fallback,
        input.speed_scale,
        RELAXATION_PASSES,
        direction,
        place,
    );
    let live = live_joints(scene);
    let poses = synthesize(&points, anchor, &live, pose);
    state.set_points(points);
    assert(staged(
        *distance,
        *advance,
        *direction,
        *place,
        *pose,
        input,
        scene@,
        old(state)@,
        state@,
        poses@,
        prepared,
        moved,
    ));
    poses
}

/// Names the stages of a frame that has a live anchor joint.
pub proof fn stages<
    V,
    R,
    L,
    T,
    FL: Fn(V, V) -> L,
    FA: Fn(V, V, L, L) -> V,
    FD: Fn(V, V) -> Option<V>,
    FP: Fn(V, V, L, L) -> V,
    FT: Fn(JointSample<V, R>, V, Option<V>, R) -> T,
>(
    distance: FL,
    advance: FA,
    direction: FD,
    place: FP,
    pose: FT,
    input: FrameInput<V, L>,
    scene: Seq<Option<JointSample<V, R>>>,
    before: Seq<VerletPoint<V, R, L>>,
    after: Seq<VerletPoint<V, R, L>>,
    poses: Seq<Option<T>>,
) -> (stage: (Seq<VerletPoint<V, R, L>>, Seq<VerletPoint<V, R, L>>))
    requires
        updated(
            distance,
            advance,
            direction,
            place,
            pose,
            input,
            scene,
            before,
            after,
            poses,
        ),
        scene.len() > 0,
        scene[0] is Some,
    ensures
        staged(
            distance,
            advance,
            direction,
            place,
            pose,
            input,
            scene,
            before,
            after,
            poses,
            stage.0,
            stage.1,
        ),
{
    let (ready, moved) = choose|ready: Seq<VerletPoint<V, R, L>>, moved: Seq<VerletPoint<V, R, L>>|
     #[trigger]
        staged(
            distance,
            advance,
            direction,
            place,
            pose,
            input,
            scene,
            before,
            after,
            poses,
            ready,
            moved,
        );
    (ready, moved)
}

/// What a frame writes: one entry per joint, never one for the anchor joint,
/// and never one for a joint that does not resolve. Where the frame leaves
/// the buffer with one point per joint, the anchor point is pinned to the
/// anchor joint's position and every other joint that resolves is written.
pub proof fn lemma_frame_writes<
    V,
    R,
    L,
    T,
    FL: Fn(V, V) -> L,
    FA: Fn(V, V, L, L) -> V,
    FD: Fn(V, V) -> Option<V>,
    FP: Fn(V, V, L, L) -> V,
    FT: Fn(JointSample<V, R>, V, Option<V>, R) -> T,
>(
    distance: FL,
    advance: FA,
    direction: FD,
    place: FP,
    pose: FT,
    input: FrameInput<V, L>,
    scene: Seq<Option<JointSample<V, R>>>,
    before: Seq<VerletPoint<V, R, L>>,
    after: Seq<VerletPoint<V, R, L>>,
    poses: Seq<Option<T>>,
)
    requires
        updated(
            distance,
            advance,
            direction,
            place,
            pose,
            input,
            scene,
            before,
            after,
            poses,
        ),
    ensures
        poses.len() == scene.len(),
        forall|joint: int|
            0 <= joint < poses.len() && (#[trigger] poses[joint]) is Some ==> joint >= 1
                && scene[joint] is Some,
        scene.len() > 0 && scene[0] is Some && after.len() == scene.len() ==> {
            &&& after[0].current == scene[0]->0.translation
            &&& forall|joint: int|
                1 <= joint < scene.len() && scene[joint] is Some ==> (#[trigger] poses[joint])
                    is Some
        },
{
    if scene.len() > 0 && scene[0] is Some {
        let (ready, moved) = stages(
            distance,
            advance,
            direction,
            place,
            pose,
            input,
            scene,
            before,
            after,
            poses,
        );
        if ready.len() == scene.len() {
            lemma_anchor_pinned(
                direction,
                place,
                scene[0]->0.translation,
                input.fallback,
                input.speed_scale,
                moved,
                after,
                RELAXATION_PASSES as nat,
            );
            assert forall|joint: int| 0 <= joint < poses.len() implies ((
            #[trigger] poses[joint]) is Some <==> is_written(liveness(scene), joint)) by {
                let entry = poses[joint];
            }
        }
    }
}

/// A stale buffer is never patched. Where a frame with a live anchor joint
/// finds a buffer that does not fit the chain, it either leaves the buffer
/// empty and writes nothing (a joint does not resolve), or ends with one
/// point per joint whose rest rotation and segment length are those measured
/// on this frame's scene.
pub proof fn lemma_frame_rebuilds_whole<
    V,
    R,
    L,
    T,
    FL: Fn(V, V) -> L,
    FA: Fn(V, V, L, L) -> V,
    FD: Fn(V, V) -> Option<V>,
    FP: Fn(V, V, L, L) -> V,
    FT: Fn(JointSample<V, R>, V, Option<V>, R) -> T,
>(
    distance: FL,
    advance: FA,
    direction: FD,
    place: FP,
    pose: FT,
    input: FrameInput<V, L>,
    scene: Seq<Option<JointSample<V, R>>>,
    before: Seq<VerletPoint<V, R, L>>,
    after: Seq<VerletPoint<V, R, L>>,
    poses: Seq<Option<T>>,
)
    requires
        updated(
            distance,
            advance,
            direction,
            place,
            pose,
            input,
            scene,
            before,
            after,
            poses,
        ),
        scene.len() > 0,
        scene[0] is Some,
        before.len() != scene.len(),
    ensures
        !all_resolved(scene) ==> after.len() == 0 && nothing_written(scene.len(), poses),
        all_resolved(scene) ==> {
            &&& after.len() == scene.len()
            &&& forall|i: int|
                0 <= i < scene.len() ==> {
                    &&& (#[trigger] after[i]).rest_rotation == scene[i]->0.rotation
                    &&& i == 0 ==> after[i].segment_length == input.zero_length
                    &&& i >= 1 ==> call_ensures(
                        distance,
                        (scene[i]->0.translation, scene[i - 1]->0.translation),
                        after[i].segment_length,
                    )
                }
        },
{
    let (ready, moved) = stages(
        distance,
        advance,
        direction,
        place,
        pose,
        input,
        scene,
        before,
        after,
        poses,
    );
    if all_resolved(scene) {
        let samples = resolved_samples(scene);
        lemma_relaxed_keeps_rest_data(
            direction,
            place,
            scene[0]->0.translation,
            input.fallback,
            input.speed_scale,
            moved,
            after,
            RELAXATION_PASSES as nat,
        );
        assert forall|i: int| 0 <= i < scene.len() implies {
            &&& (#[trigger] after[i]).rest_rotation == scene[i]->0.rotation
            &&& i == 0 ==> after[i].segment_length == input.zero_length
            &&& i >= 1 ==> call_ensures(
                distance,
                (scene[i]->0.translation, scene[i - 1]->0.translation),
                after[i].segment_length,
            )
        } by {
            assert(rest_point(distance, input.zero_length, samples, i, ready[i]));
            assert(moved[i].rest_rotation == ready[i].rest_rotation);
            assert(moved[i].segment_length == ready[i].segment_length);
            assert(after[i].rest_rotation == moved[i].rest_rotation);
        }
    }
}

/// A chain that has come to rest stays at rest. With a kernel that leaves a
/// point without velocity where it is, a frame changes nothing in a buffer
/// that fits the chain, holds no velocity, and is settled on the anchor
/// joint's position.
pub proof fn lemma_resting_chain_stays<
    V,
    R,
    L,
    T,
    FL: Fn(V, V) -> L,
    FA: Fn(V, V, L, L) -> V,
    FD: Fn(V, V) -> Option<V>,
    FP: Fn(V, V, L, L) -> V,
    FT: Fn(JointSample<V, R>, V, Option<V>, R) -> T,
>(
    distance: FL,
    advance: FA,
    direction: FD,
    place: FP,
    pose: FT,
    input: FrameInput<V, L>,
    scene: Seq<Option<JointSample<V, R>>>,
    before: Seq<VerletPoint<V, R, L>>,
    after: Seq<VerletPoint<V, R, L>>,
    poses: Seq<Option<T>>,
)
    requires
        updated(
            distance,
            advance,
            direction,
            place,
            pose,
            input,
            scene,
            before,
            after,
            poses,
        ),
        scene.len() > 0,
        scene[0] is Some,
        before.len() == scene.len(),
        forall|i: int|
            1 <= i < before.len() ==> (#[trigger] before[i]).previous == before[i].current,
        forall|at: V, out: V|
            call_ensures(advance, (at, at, input.delta_time, input.integration_gain), out) ==> out
                == at,
        settled(
            direction,
            place,
            scene[0]->0.translation,
            input.fallback,
            input.speed_scale,
            before,
        ),
    ensures
        after == before,
{
    let (ready, moved) = stages(
        distance,
        advance,
        direction,
        place,
        pose,
        input,
        scene,
        before,
        after,
        poses,
    );
    lemma_still_chain_stays(advance, input.delta_time, input.integration_gain, before, moved);
    lemma_settled_chain_stays(
        direction,
        place,
        scene[0]->0.translation,
        input.fallback,
        input.speed_scale,
        before,
        after,
        RELAXATION_PASSES as nat,
    );
}

/// A frame is determined by what it is given. With kernels that give one
/// value for one set of arguments, one buffer, scene and input give one
/// buffer and one set of transforms.
pub proof fn lemma_frame_one_outcome<
    V,
    R,
    L,
    T,
    FL: Fn(V, V) -> L,
    FA: Fn(V, V, L, L) -> V,
    FD: Fn(V, V) -> Option<V>,
    FP: Fn(V, V, L, L) -> V,
    FT: Fn(JointSample<V, R>, V, Option<V>, R) -> T,
>(
    distance: FL,
    advance: FA,
    direction: FD,
    place: FP,
    pose: FT,
    input: FrameInput<V, L>,
    scene: Seq<Option<JointSample<V, R>>>,
    before: Seq<VerletPoint<V, R, L>>,
    one: (Seq<VerletPoint<V, R, L>>, Seq<Option<T>>),
    other: (Seq<VerletPoint<V, R, L>>, Seq<Option<T>>),
)
    requires
        forall|a: V, b: V, x: L, y: L|
            call_ensures(distance, (a, b), x) && call_ensures(distance, (a, b), y) ==> x == y,
        forall|c: V, p: V, t: L, g: L, x: V, y: V|
            call_ensures(advance, (c, p, t, g), x) && call_ensures(advance, (c, p, t, g), y) ==> x
                == y,
        one_placement::<V, L, FD, FP>(direction, place),
        forall|a: JointSample<V, R>, at: V, aim: Option<V>, rest: R, x: T, y: T|
            call_ensures(pose, (a, at, aim, rest), x) && call_ensures(pose, (a, at, aim, rest), y)
                ==> x == y,
        updated(
            distance,
            advance,
            direction,
            place,
            pose,
            input,
            scene,
            before,
            one.0,
            one.1,
        ),
        updated(
            distance,
            advance,
            direction,
            place,
            pose,
            input,
            scene,
            before,
            other.0,
            other.1,
        ),
    ensures
        one == other,
{
    if scene.len() == 0 || scene[0] is None {
        assert(one.1 =~= other.1);
    } else {
        let anchor = scene[0]->0;
        let (ready_one, moved_one) = stages(
            distance,
            advance,
            direction,
            place,
            pose,
            input,
            scene,
            before,
            one.0,
            one.1,
        );
        let (ready_other, moved_other) = stages(
            distance,
            advance,
            direction,
            place,
            pose,
            input,
            scene,
            before,
            other.0,
            other.1,
        );
        lemma_initialized_one_outcome(
            distance,
            input.zero_length,
            scene,
            before,
            ready_one,
            ready_other,
        );
        if ready_one.len() != scene.len() {
            assert(one.1 =~= other.1);
        } else {
            lemma_integrated_one_outcome(
                advance,
                input.delta_time,
                input.integration_gain,
                ready_one,
                moved_one,
                moved_other,
            );
            lemma_relaxed_one_outcome(
                direction,
                place,
                anchor.translation,
                input.fallback,
                input.speed_scale,
                moved_one,
                one.0,
                other.0,
                RELAXATION_PASSES as nat,
            );
            lemma_synthesized_one_outcome(pose, anchor, one.0, liveness(scene), one.1, other.1);
        }
    }
}

} // verus!
