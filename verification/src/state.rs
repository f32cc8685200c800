//! The persistent point buffer of one chain and the rule that (re)builds it.
//!
//! Positions, rotations and lengths are values of the caller's numeric types
//! (`V`, `R`, `L`). The arithmetic on them is supplied as kernels; this module
//! fixes which values go where.

use vstd::prelude::*;

verus! {

/// One particle of the chain.
#[derive(Clone, Copy)]
pub struct VerletPoint<V, R, L> {
    /// World-space position of this step.
    pub current: V,
    /// World-space position of the step before; `current - previous` is the
    /// implicit velocity.
    pub previous: V,
    /// World-space orientation of the joint in the authored pose.
    pub rest_rotation: R,
    /// Rest distance to the point before it in the chain.
    pub segment_length: L,
}

/// World transform of one joint as read from the live scene.
#[derive(Clone, Copy)]
pub struct JointSample<V, R> {
    /// World-space position of the joint.
    pub translation: V,
    /// World-space orientation of the joint.
    pub rotation: R,
    /// World-space scale of the joint.
    pub scale: V,
}

/// What a freshly built point `i` holds: it rests at its joint, with the
/// joint's rotation, at the measured distance from the joint before it. The
/// anchor's length is `zero`.
pub open spec fn rest_point<V, R, L, FD: Fn(V, V) -> L>(
    distance: FD,
    zero: L,
    samples: Seq<JointSample<V, R>>,
    i: int,
    point: VerletPoint<V, R, L>,
) -> bool {
    &&& point.current == samples[i].translation
    &&& point.previous == samples[i].translation
    &&& point.rest_rotation == samples[i].rotation
    &&& if i == 0 {
        point.segment_length == zero
    } else {
        call_ensures(
            distance,
            (samples[i].translation, samples[i - 1].translation),
            point.segment_length,
        )
    }
}

/// `points` is the chain at rest on `samples`.
pub open spec fn rest_chain<V, R, L, FD: Fn(V, V) -> L>(
    distance: FD,
    zero: L,
    samples: Seq<JointSample<V, R>>,
    points: Seq<VerletPoint<V, R, L>>,
) -> bool {
    &&& points.len() == samples.len()
    &&& forall|i: int|
        0 <= i < samples.len() ==> rest_point(distance, zero, samples, i, #[trigger] points[i])
}

/// Every joint of the scene resolved to a live node.
pub open spec fn all_resolved<V, R>(scene: Seq<Option<JointSample<V, R>>>) -> bool {
    forall|i: int| 0 <= i < scene.len() ==> (#[trigger] scene[i]) is Some
}

/// The samples of a fully resolved scene.
pub open spec fn resolved_samples<V, R>(scene: Seq<Option<JointSample<V, R>>>) -> Seq<
    JointSample<V, R>,
> {
    Seq::new(scene.len(), |i: int| scene[i]->0)
}

/// The initialization rule. A buffer with one point per joint is kept as it
/// is. Any other buffer is discarded: it is rebuilt at rest when every joint
/// resolves, and left empty when one does not.
pub open spec fn initialized<V, R, L, FD: Fn(V, V) -> L>(
    distance: FD,
    zero: L,
    scene: Seq<Option<JointSample<V, R>>>,
    before: Seq<VerletPoint<V, R, L>>,
    after: Seq<VerletPoint<V, R, L>>,
) -> bool {
    if before.len() == scene.len() {
        after == before
    } else if all_resolved(scene) {
        rest_chain(distance, zero, resolved_samples(scene), after)
    } else {
        after.len() == 0
    }
}

/// Gathers the samples of a scene, or nothing if a joint is unresolved.
pub fn collect_samples<V: Copy, R: Copy>(scene: &Vec<Option<JointSample<V, R>>>) -> (samples:
    Option<Vec<JointSample<V, R>>>)
    ensures
        samples is Some <==> all_resolved(scene@),
        samples is Some ==> samples->0@ == resolved_samples(scene@),
{
    let mut samples: Vec<JointSample<V, R>> = Vec::new();
    let mut i: usize = 0;
    while i < scene.len()
        invariant
            i <= scene.len(),
            samples.len() == i,
            forall|k: int| 0 <= k < i ==> (#[trigger] scene[k]) is Some,
            forall|k: int| 0 <= k < i ==> #[trigger] samples[k] == scene[k]->0,
        decreases scene.len() - i,
    {
        match scene[i] {
            Some(sample) => {
                samples.push(sample);
            },
            None => {
                return None;
            },
        }
        i += 1;
    }
    assert(samples@ =~= resolved_samples(scene@));
    Some(samples)
}

/// Builds the chain at rest on `samples`: one point per joint, without
/// velocity, each segment as long as the joints are apart.
pub fn rest_points<V: Copy, R: Copy, L: Copy, FD: Fn(V, V) -> L>(
    samples: &Vec<JointSample<V, R>>,
    zero: L,
    distance: &FD,
) -> (points: Vec<VerletPoint<V, R, L>>)
    requires
        forall|a: V, b: V| call_requires(*distance, (a, b)),
    ensures
        rest_chain(*distance, zero, samples@, points@),
{
    let mut points: Vec<VerletPoint<V, R, L>> = Vec::new();
    let mut i: usize = 0;
    while i < samples.len()
        invariant
            i <= samples.len(),
            points.len() == i,
            forall|a: V, b: V| call_requires(*distance, (a, b)),
            forall|k: int|
                0 <= k < i ==> rest_point(*distance, zero, samples@, k, #[trigger] points[k]),
        decreases samples.len() - i,
    {
        let here = samples[i].translation;
        let segment_length = if i == 0 {
            zero
        } else {
            distance(here, samples[i - 1].translation)
        };
        points.push(
            VerletPoint {
                current: here,
                previous: here,
                rest_rotation: samples[i].rotation,
                segment_length,
            },
        );
        i += 1;
    }
    points
}

/// The point buffer of one chain, carried from frame to frame. Index 0 is the
/// pinned anchor; the others are simulated.
pub struct VerletChainState<V, R, L> {
    points: Vec<VerletPoint<V, R, L>>,
}

impl<V, R, L> View for VerletChainState<V, R, L> {
    type V = Seq<VerletPoint<V, R, L>>;

    closed spec fn view(&self) -> Seq<VerletPoint<V, R, L>> {
        self.points@
    }
}

impl<V: Copy, R: Copy, L: Copy> VerletChainState<V, R, L> {
    /// A buffer that was never initialized.
    pub fn new() -> (state: Self)
        ensures
            state@.len() == 0,
    {
        VerletChainState { points: Vec::new() }
    }

    /// A buffer that holds `points`.
    pub fn from_points(points: Vec<VerletPoint<V, R, L>>) -> (state: Self)
        ensures
            state@ == points@,
    {
        VerletChainState { points }
    }

    /// Number of points.
    pub fn len(&self) -> (n: usize)
        ensures
            n == self@.len(),
    {
        self.points.len()
    }

    /// The points, anchor first.
    pub fn points(&self) -> (points: &Vec<VerletPoint<V, R, L>>)
        ensures
            points@ == self@,
    {
        &self.points
    }

    /// Moves the points out and leaves the buffer empty.
    pub(crate) fn take_points(&mut self) -> (points: Vec<VerletPoint<V, R, L>>)
        ensures
            points@ == old(self)@,
            final(self)@.len() == 0,
    {
        let mut points: Vec<VerletPoint<V, R, L>> = Vec::new();
        std::mem::swap(&mut points, &mut self.points);
        points
    }

    /// Replaces the points.
    pub(crate) fn set_points(&mut self, points: Vec<VerletPoint<V, R, L>>)
        ensures
            final(self)@ == points@,
    {
        self.points = points;
    }

    /// Whether the buffer does not fit a chain of `joint_count` joints.
    pub fn needs_rebuild(&self, joint_count: usize) -> (stale: bool)
        ensures
            stale == (self@.len() != joint_count),
    {
        self.points.len() != joint_count
    }

    /// Applies the initialization rule for the joints of `scene`, and tells
    /// whether the buffer now has one point per joint.
    pub fn ensure_initialized<FD: Fn(V, V) -> L>(
        &mut self,
        scene: &Vec<Option<JointSample<V, R>>>,
        zero: L,
        distance: &FD,
    ) -> (ready: bool)
        requires
            forall|a: V, b: V| call_requires(*distance, (a, b)),
        ensures
            initialized(*distance, zero, scene@, old(self)@, final(self)@),
            ready == (final(self)@.len() == scene@.len()),
    {
        if !self.needs_rebuild(scene.len()) {
            return true;
        }
        match collect_samples(scene) {
            Some(samples) => {
                self.points = rest_points(&samples, zero, distance);
                true
            },
            None => {
                self.points = Vec::new();
                assert(!all_resolved(scene@));
                assert(scene@.len() != 0);
                false
            },
        }
    }
}

/// Initializing twice over the same joints changes nothing the second time:
/// when the two scenes have as many joints and the same ones resolve, the
/// buffer after the second call is the buffer after the first, so segment
/// lengths and rest rotations are those of the first call.
pub proof fn lemma_initialize_twice<V, R, L, FD: Fn(V, V) -> L>(
    distance: FD,
    zero: L,
    first: Seq<Option<JointSample<V, R>>>,
    second: Seq<Option<JointSample<V, R>>>,
    start: Seq<VerletPoint<V, R, L>>,
    once: Seq<VerletPoint<V, R, L>>,
    twice: Seq<VerletPoint<V, R, L>>,
)
    requires
        first.len() == second.len(),
        forall|i: int| 0 <= i < first.len() ==> (first[i] is Some <==> second[i] is Some),
        initialized(distance, zero, first, start, once),
        initialized(distance, zero, second, once, twice),
    ensures
        twice == once,
{
    if once.len() != second.len() {
        assert(start.len() != first.len());
        assert(!all_resolved(first));
        let i = choose|i: int| 0 <= i < first.len() && !(#[trigger] first[i] is Some);
        assert(!(second[i] is Some));
        assert(!all_resolved(second));
        assert(twice =~= once);
    }
}

/// With a `distance` kernel that gives one value for one pair of points, the
/// initialization rule gives one buffer for one buffer and scene.
pub proof fn lemma_initialized_one_outcome<V, R, L, FD: Fn(V, V) -> L>(
    distance: FD,
    zero: L,
    scene: Seq<Option<JointSample<V, R>>>,
    before: Seq<VerletPoint<V, R, L>>,
    one: Seq<VerletPoint<V, R, L>>,
    other: Seq<VerletPoint<V, R, L>>,
)
    requires
        forall|a: V, b: V, x: L, y: L|
            call_ensures(distance, (a, b), x) && call_ensures(distance, (a, b), y) ==> x == y,
        initialized(distance, zero, scene, before, one),
        initialized(distance, zero, scene, before, other),
    ensures
        one == other,
{
    if before.len() != scene.len() {
        if all_resolved(scene) {
            let samples = resolved_samples(scene);
            assert forall|i: int| 0 <= i < one.len() implies one[i] == other[i] by {
                assert(rest_point(distance, zero, samples, i, one[i]));
                assert(rest_point(distance, zero, samples, i, other[i]));
            }
        }
        assert(one =~= other);
    }
}

} // verus!
