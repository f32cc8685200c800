use verlet_tail::integrator::integrate;
use verlet_tail::pose::synthesize;
use verlet_tail::solver::{place_behind, relax, relax_once, RELAXATION_PASSES};
use verlet_tail::state::{
    collect_samples, rest_points, JointSample, VerletChainState, VerletPoint,
};
use verlet_tail::tail::{update_tail, FrameInput};

type V3 = [f32; 3];
type Point = VerletPoint<V3, u32, f32>;
type Sample = JointSample<V3, u32>;
type State = VerletChainState<V3, u32, f32>;

#[derive(Debug, Clone, Copy, PartialEq)]
struct Local {
    offset: V3,
    aim: Option<V3>,
    rest: u32,
}

const ORIGIN: V3 = [0.0, 0.0, 0.0];
const FORWARD: V3 = [0.0, 0.0, 1.0];

fn sub(a: V3, b: V3) -> V3 {
    [a[0] - b[0], a[1] - b[1], a[2] - b[2]]
}

fn add(a: V3, b: V3) -> V3 {
    [a[0] + b[0], a[1] + b[1], a[2] + b[2]]
}

fn scale(a: V3, by: f32) -> V3 {
    [a[0] * by, a[1] * by, a[2] * by]
}

fn length(a: V3) -> f32 {
    (a[0] * a[0] + a[1] * a[1] + a[2] * a[2]).sqrt()
}

fn finite(a: V3) -> bool {
    a[0].is_finite() && a[1].is_finite() && a[2].is_finite()
}

fn distance(a: V3, b: V3) -> f32 {
    length(sub(a, b))
}

fn advance(current: V3, previous: V3, delta_time: f32, gain: f32) -> V3 {
    add(current, scale(sub(current, previous), delta_time * gain))
}

fn direction(parent: V3, current: V3) -> Option<V3> {
    let delta = sub(current, parent);
    let inverse = 1.0 / length(delta);
    if inverse.is_finite() && inverse > 0.0 {
        Some(scale(delta, inverse))
    } else {
        None
    }
}

fn place(parent: V3, along: V3, length: f32, speed_scale: f32) -> V3 {
    add(parent, scale(along, length * speed_scale))
}

fn local_pose(anchor: Sample, at: V3, aim: Option<V3>, rest: u32) -> Local {
    Local { offset: sub(at, anchor.translation), aim, rest }
}

fn point(at: V3, segment_length: f32) -> Point {
    VerletPoint { current: at, previous: at, rest_rotation: 0, segment_length }
}

fn moving(current: V3, previous: V3, rest_rotation: u32, segment_length: f32) -> Point {
    VerletPoint { current, previous, rest_rotation, segment_length }
}

fn sample(at: V3, rotation: u32) -> Sample {
    JointSample { translation: at, rotation, scale: [1.0, 1.0, 1.0] }
}

fn straight_scene(joints: usize, spacing: f32) -> Vec<Option<Sample>> {
    (0..joints).map(|i| Some(sample([0.0, 0.0, spacing * i as f32], 10 + i as u32))).collect()
}

fn input(delta_time: f32, integration_gain: f32, speed_scale: f32) -> FrameInput<V3, f32> {
    FrameInput { delta_time, integration_gain, speed_scale, zero_length: 0.0, fallback: FORWARD }
}

fn run_frame(
    state: &mut State,
    scene: &Vec<Option<Sample>>,
    input: FrameInput<V3, f32>,
) -> Vec<Option<Local>> {
    update_tail(state, scene, input, &distance, &advance, &direction, &place, &local_pose)
}

fn relax_at_unit_speed(points: &mut Vec<Point>, anchor: V3, passes: usize) {
    relax(points, anchor, FORWARD, 1.0, passes, &direction, &place);
}

fn currents(points: &[Point]) -> Vec<V3> {
    points.iter().map(|p| p.current).collect()
}

fn lengths(points: &[Point]) -> Vec<f32> {
    points.iter().map(|p| p.segment_length).collect()
}

fn rotations(points: &[Point]) -> Vec<u32> {
    points.iter().map(|p| p.rest_rotation).collect()
}

#[test]
fn integrate_moves_by_scaled_velocity() {
    let mut points = vec![
        moving([4.0, 0.0, 0.0], [1.0, 0.0, 0.0], 1, 0.0),
        moving([1.0, 2.0, 3.0], [0.0, 2.0, 3.0], 2, 1.5),
        moving([0.0, 0.0, 8.0], [0.0, 0.0, 4.0], 3, 2.5),
    ];
    integrate(&mut points, 0.125, 4.0, &advance);
    assert_eq!(points[0].current, [4.0, 0.0, 0.0]);
    assert_eq!(points[0].previous, [1.0, 0.0, 0.0]);
    assert_eq!(points[1].current, [1.5, 2.0, 3.0]);
    assert_eq!(points[1].previous, [1.0, 2.0, 3.0]);
    assert_eq!(points[2].current, [0.0, 0.0, 10.0]);
    assert_eq!(points[2].previous, [0.0, 0.0, 8.0]);
    assert_eq!(rotations(&points), vec![1, 2, 3]);
    assert_eq!(lengths(&points), vec![0.0, 1.5, 2.5]);
}

#[test]
fn integrate_leaves_empty_and_single_chains() {
    let mut none: Vec<Point> = Vec::new();
    integrate(&mut none, 0.5, 5.0, &advance);
    assert!(none.is_empty());
    let mut one = vec![moving([1.0, 1.0, 1.0], ORIGIN, 0, 0.0)];
    integrate(&mut one, 0.5, 5.0, &advance);
    assert_eq!(one[0].current, [1.0, 1.0, 1.0]);
    assert_eq!(one[0].previous, ORIGIN);
}

#[test]
fn integrate_without_velocity_moves_nothing() {
    let mut points = vec![point(ORIGIN, 0.0), point([0.5, 1.5, 2.5], 1.0)];
    integrate(&mut points, 0.25, 5.0, &advance);
    assert_eq!(points[1].current, [0.5, 1.5, 2.5]);
    assert_eq!(points[1].previous, [0.5, 1.5, 2.5]);
}

#[test]
fn straight_chain_relax() {
    let mut points = vec![point(ORIGIN, 0.0), point(FORWARD, 1.0), point(FORWARD, 1.0)];
    relax_once(&mut points, ORIGIN, FORWARD, 1.0, &direction, &place);
    assert_eq!(currents(&points), vec![ORIGIN, [0.0, 0.0, 1.0], [0.0, 0.0, 2.0]]);
    assert_eq!(distance(points[2].current, points[1].current), 1.0);
}

#[test]
fn collapsed_point_goes_along_the_given_fallback() {
    let mut points = vec![point(ORIGIN, 0.0), point(FORWARD, 1.0), point(FORWARD, 1.0)];
    relax_once(&mut points, ORIGIN, [1.0, 0.0, 0.0], 1.0, &direction, &place);
    assert_eq!(points[2].current, [1.0, 0.0, 1.0]);
}

#[test]
fn anchor_move() {
    let mut points: Vec<Point> =
        (0..5).map(|i| point([0.0, 0.0, i as f32], if i == 0 { 0.0 } else { 1.0 })).collect();
    let anchor = [10.0, 0.0, 0.0];
    relax_at_unit_speed(&mut points, anchor, RELAXATION_PASSES);
    assert_eq!(points[0].current, anchor);
    assert!(distance(points[1].current, anchor) <= 1.0 + 1e-4);
    for i in 1..points.len() {
        let apart = distance(points[i].current, points[i - 1].current);
        assert!(apart <= points[i].segment_length + 1e-4);
    }
    for i in 1..points.len() {
        assert!(points[i].current[0] < 10.0);
        assert!(points[i].current[0] < points[i - 1].current[0]);
    }
}

#[test]
fn relax_keeps_segment_lengths_at_unit_speed() {
    let rest = [0.0, 0.5, 1.25, 0.75, 2.0, 0.1];
    let starts = [
        ORIGIN,
        [0.3, -0.2, 0.9],
        [4.0, 1.0, -2.0],
        [-1.0, 0.5, 0.5],
        [2.0, 2.0, 2.0],
        [2.1, 2.0, 2.3],
    ];
    let mut points: Vec<Point> = (0..6).map(|i| point(starts[i], rest[i])).collect();
    relax_at_unit_speed(&mut points, [1.0, 2.0, 3.0], RELAXATION_PASSES);
    for i in 1..points.len() {
        let apart = distance(points[i].current, points[i - 1].current);
        assert!((apart - rest[i]).abs() < 1e-4);
        assert_eq!(points[i].segment_length, rest[i]);
        assert_eq!(points[i].previous, starts[i]);
    }
}

#[test]
fn relax_stretches_segments_with_speed() {
    let mut points = vec![point(ORIGIN, 0.0), point(FORWARD, 1.0), point([0.0, 0.0, 2.0], 2.0)];
    relax_once(&mut points, ORIGIN, FORWARD, 0.5, &direction, &place);
    assert_eq!(points[1].current, [0.0, 0.0, 0.5]);
    assert_eq!(points[2].current, [0.0, 0.0, 1.5]);
    assert_eq!(points[2].segment_length, 2.0);
}

#[test]
fn anchor_is_pinned_after_any_number_of_passes() {
    let anchor = [3.5, -1.25, 7.0];
    for passes in 1..8 {
        let mut points =
            vec![point([9.0, 9.0, 9.0], 0.0), point([1.0, 0.0, 0.0], 1.0), point(FORWARD, 1.0)];
        relax_at_unit_speed(&mut points, anchor, passes);
        assert_eq!(points[0].current, anchor);
        assert_eq!(points[0].previous, [9.0, 9.0, 9.0]);
    }
}

#[test]
fn no_pass_changes_nothing() {
    let mut points = vec![point([9.0, 9.0, 9.0], 0.0), point([1.0, 0.0, 0.0], 1.0)];
    relax_at_unit_speed(&mut points, ORIGIN, 0);
    assert_eq!(currents(&points), vec![[9.0, 9.0, 9.0], [1.0, 0.0, 0.0]]);
}

#[test]
fn relax_leaves_an_empty_chain_empty() {
    let mut points: Vec<Point> = Vec::new();
    relax_at_unit_speed(&mut points, [1.0, 0.0, 0.0], RELAXATION_PASSES);
    assert!(points.is_empty());
}

#[test]
fn relaxed_chain_is_a_fixed_point() {
    let mut points: Vec<Point> =
        (0..6).map(|i| point([0.0, 0.0, i as f32], if i == 0 { 0.0 } else { 1.0 })).collect();
    let before = currents(&points);
    relax_at_unit_speed(&mut points, ORIGIN, RELAXATION_PASSES);
    assert_eq!(currents(&points), before);
}

#[test]
fn coincident_points_stay_finite() {
    let at = [2.0, 2.0, 2.0];
    let mut points = vec![point(at, 0.0), point(at, 1.0), point(at, 0.5), point(at, 0.0)];
    relax_once(&mut points, at, FORWARD, 1.0, &direction, &place);
    for p in &points {
        assert!(finite(p.current));
    }
    // only the first point coincides with its predecessor once that one is placed
    assert_eq!(points[1].current, [2.0, 2.0, 3.0]);
    assert_eq!(points[2].current, [2.0, 2.0, 2.5]);
    assert_eq!(points[3].current, [2.0, 2.0, 2.5]);
}

#[test]
fn place_behind_uses_found_direction_or_fallback() {
    let parent = [1.0, 0.0, 0.0];
    let along = place_behind(parent, [1.0, 5.0, 0.0], 2.0, FORWARD, 1.0, &direction, &place);
    assert_eq!(along, [1.0, 2.0, 0.0]);
    let fell_back = place_behind(parent, parent, 2.0, FORWARD, 1.0, &direction, &place);
    assert_eq!(fell_back, [1.0, 0.0, 2.0]);
    let stretched = place_behind(parent, parent, 2.0, FORWARD, 1.5, &direction, &place);
    assert_eq!(stretched, [1.0, 0.0, 3.0]);
}

#[test]
fn three_passes_by_convention() {
    assert_eq!(RELAXATION_PASSES, 3);
}

#[test]
fn rest_points_measure_segments() {
    let samples = vec![
        sample([1.0, 1.0, 1.0], 7),
        sample([1.0, 4.0, 5.0], 8),
        sample([1.0, 4.0, 5.0], 9),
        sample([3.0, 4.0, 5.0], 10),
    ];
    let points = rest_points(&samples, 0.0, &distance);
    assert_eq!(lengths(&points), vec![0.0, 5.0, 0.0, 2.0]);
    assert_eq!(rotations(&points), vec![7, 8, 9, 10]);
    for (p, s) in points.iter().zip(samples.iter()) {
        assert_eq!(p.current, s.translation);
        assert_eq!(p.previous, s.translation);
    }
}

#[test]
fn rest_points_measure_from_each_joint_to_the_one_before() {
    let samples = vec![sample(ORIGIN, 0), sample([1.0, 0.0, 0.0], 0), sample([3.0, 0.0, 0.0], 0)];
    let signed = |at: V3, before: V3| at[0] - 10.0 * before[0];
    let points = rest_points(&samples, 0.0, &signed);
    assert_eq!(lengths(&points), vec![0.0, 1.0, -7.0]);
}

#[test]
fn rest_points_take_the_given_zero_for_the_anchor() {
    let samples = vec![sample([1.0, 1.0, 1.0], 7), sample([1.0, 1.0, 3.0], 8)];
    let points = rest_points(&samples, -1.0, &distance);
    assert_eq!(lengths(&points), vec![-1.0, 2.0]);
}

#[test]
fn collect_samples_needs_every_joint() {
    let full = vec![Some(sample(ORIGIN, 1)), Some(sample(FORWARD, 2))];
    let got = collect_samples(&full).unwrap();
    assert_eq!(got.len(), 2);
    assert_eq!(got[1].translation, FORWARD);
    assert_eq!(got[1].rotation, 2);
    let holed = vec![Some(sample(ORIGIN, 1)), None, Some(sample(FORWARD, 2))];
    assert!(collect_samples(&holed).is_none());
    let empty: Vec<Option<Sample>> = Vec::new();
    assert_eq!(collect_samples(&empty).unwrap().len(), 0);
}

#[test]
fn state_starts_empty_and_needs_a_rebuild() {
    let state = State::new();
    assert_eq!(state.len(), 0);
    assert!(state.needs_rebuild(9));
    assert!(!state.needs_rebuild(0));
}

#[test]
fn initialization_is_idempotent() {
    let scene = straight_scene(9, 0.5);
    let mut state = State::new();
    assert!(state.ensure_initialized(&scene, 0.0, &distance));
    let first_lengths = lengths(state.points());
    let first_rotations = rotations(state.points());
    assert_eq!(first_lengths, vec![0.0, 0.5, 0.5, 0.5, 0.5, 0.5, 0.5, 0.5, 0.5]);
    assert_eq!(first_rotations, vec![10, 11, 12, 13, 14, 15, 16, 17, 18]);
    let moved: Vec<Option<Sample>> =
        (0..9).map(|i| Some(sample([5.0, 0.0, 2.0 * i as f32], 90 + i as u32))).collect();
    assert!(state.ensure_initialized(&moved, 0.0, &distance));
    assert_eq!(lengths(state.points()), first_lengths);
    assert_eq!(rotations(state.points()), first_rotations);
    assert_eq!(state.points()[3].current, [0.0, 0.0, 1.5]);
}

#[test]
fn stale_state_is_rebuilt_in_full() {
    let stale = vec![point([9.0, 9.0, 9.0], 4.0), point([8.0, 8.0, 8.0], 4.0)];
    let mut state = State::from_points(stale);
    let scene = straight_scene(3, 2.0);
    assert!(state.needs_rebuild(3));
    assert!(state.ensure_initialized(&scene, 0.0, &distance));
    assert_eq!(state.len(), 3);
    assert_eq!(currents(state.points()), vec![ORIGIN, [0.0, 0.0, 2.0], [0.0, 0.0, 4.0]]);
    assert_eq!(lengths(state.points()), vec![0.0, 2.0, 2.0]);
    assert_eq!(rotations(state.points()), vec![10, 11, 12]);
    assert_eq!(state.points()[2].previous, [0.0, 0.0, 4.0]);
}

#[test]
fn stale_state_with_a_missing_joint_is_discarded() {
    let mut state = State::from_points(vec![point([9.0, 9.0, 9.0], 4.0)]);
    let mut scene = straight_scene(3, 2.0);
    scene[1] = None;
    assert!(!state.ensure_initialized(&scene, 0.0, &distance));
    assert_eq!(state.len(), 0);
}

#[test]
fn fitting_state_ignores_missing_joints() {
    let mut state = State::from_points(vec![point(ORIGIN, 0.0), point(FORWARD, 1.0)]);
    let scene = vec![Some(sample([5.0, 5.0, 5.0], 1)), None];
    assert!(state.ensure_initialized(&scene, 0.0, &distance));
    assert_eq!(currents(state.points()), vec![ORIGIN, FORWARD]);
}

#[test]
fn synthesize_aims_every_joint_but_the_last() {
    let points: Vec<Point> =
        (0..4).map(|i| moving([1.0, 0.0, i as f32], ORIGIN, 20 + i as u32, 1.0)).collect();
    let anchor = sample([1.0, 0.0, 0.0], 0);
    let poses = synthesize(&points, anchor, &vec![true; 4], &local_pose);
    let expected = vec![
        None,
        Some(Local { offset: [0.0, 0.0, 1.0], aim: Some([1.0, 0.0, 2.0]), rest: 21 }),
        Some(Local { offset: [0.0, 0.0, 2.0], aim: Some([1.0, 0.0, 3.0]), rest: 22 }),
        Some(Local { offset: [0.0, 0.0, 3.0], aim: None, rest: 23 }),
    ];
    assert_eq!(poses, expected);
}

#[test]
fn synthesize_never_writes_the_anchor() {
    let points = vec![point(ORIGIN, 0.0)];
    let poses = synthesize(&points, sample(ORIGIN, 0), &vec![true], &local_pose);
    assert_eq!(poses, vec![None]);
    let none: Vec<Point> = Vec::new();
    assert!(synthesize(&none, sample(ORIGIN, 0), &Vec::new(), &local_pose).is_empty());
}

#[test]
fn missing_joint() {
    let points: Vec<Point> =
        (0..9).map(|i| moving([0.0, 1.0, i as f32], ORIGIN, i as u32, 1.0)).collect();
    let anchor = sample([0.0, 1.0, 0.0], 0);
    let all = synthesize(&points, anchor, &vec![true; 9], &local_pose);
    let mut live = vec![true; 9];
    live[5] = false;
    let poses = synthesize(&points, anchor, &live, &local_pose);
    assert_eq!(poses.len(), 9);
    assert_eq!(poses[5], None);
    for joint in 1..9 {
        if joint != 5 {
            let local = poses[joint].unwrap();
            assert!(finite(local.offset));
            assert_eq!(poses[joint], all[joint]);
        }
    }
    assert_eq!(poses[4].unwrap().aim, Some([0.0, 1.0, 5.0]));
}

#[test]
fn synthesize_treats_a_short_liveness_list_as_missing() {
    let points: Vec<Point> = (0..3).map(|i| point([0.0, 0.0, i as f32], 1.0)).collect();
    let poses = synthesize(&points, sample(ORIGIN, 0), &vec![true, true], &local_pose);
    assert_eq!(poses.len(), 3);
    assert!(poses[0].is_none());
    assert!(poses[1].is_some());
    assert!(poses[2].is_none());
}

#[test]
fn frame_without_an_anchor_does_nothing() {
    let mut state = State::from_points(vec![point([1.0, 1.0, 1.0], 0.0), point(FORWARD, 1.0)]);
    let scene = vec![None, Some(sample(FORWARD, 1))];
    let poses = run_frame(&mut state, &scene, input(0.1, 5.0, 1.0));
    assert_eq!(poses, vec![None, None]);
    assert_eq!(currents(state.points()), vec![[1.0, 1.0, 1.0], FORWARD]);
    let none = run_frame(&mut state, &Vec::new(), input(0.1, 5.0, 1.0));
    assert!(none.is_empty());
    assert_eq!(state.len(), 2);
}

#[test]
fn first_frame_builds_the_chain_and_writes_every_joint_but_the_anchor() {
    let mut state = State::new();
    let poses = run_frame(&mut state, &straight_scene(9, 0.5), input(0.1, 5.0, 1.0));
    assert_eq!(state.len(), 9);
    assert_eq!(poses.len(), 9);
    assert_eq!(poses[0], None);
    for joint in 1..9 {
        let local = poses[joint].unwrap();
        assert_eq!(local.offset, [0.0, 0.0, 0.5 * joint as f32]);
        assert_eq!(local.rest, 10 + joint as u32);
        if joint < 8 {
            assert_eq!(local.aim, Some([0.0, 0.0, 0.5 * (joint + 1) as f32]));
        } else {
            assert_eq!(local.aim, None);
        }
    }
}

#[test]
fn frame_integrates_then_relaxes() {
    let mut state =
        State::from_points(vec![point(ORIGIN, 0.0), moving(FORWARD, ORIGIN, 1, 1.0)]);
    let anchor = [0.0, 3.0, 0.0];
    let scene = vec![Some(sample(anchor, 0)), Some(sample(ORIGIN, 0))];
    let poses = run_frame(&mut state, &scene, input(0.5, 4.0, 1.0));
    // integration puts the point at (0, 0, 3); the anchor is then pinned at (0, 3, 0)
    let expected = add(anchor, scale([0.0, -3.0, 3.0], 1.0 / 18.0f32.sqrt()));
    assert_eq!(state.points()[0].current, anchor);
    assert_eq!(state.points()[1].previous, FORWARD);
    for axis in 0..3 {
        assert!((state.points()[1].current[axis] - expected[axis]).abs() < 1e-5);
    }
    assert_eq!(poses[1].unwrap().offset, sub(state.points()[1].current, anchor));
}

#[test]
fn frame_takes_scale_fallback_and_zero_from_its_input() {
    let mut state = State::new();
    let scene =
        vec![Some(sample(ORIGIN, 1)), Some(sample(ORIGIN, 2)), Some(sample([0.0, 0.0, 4.0], 3))];
    let input = FrameInput {
        delta_time: 0.1,
        integration_gain: 5.0,
        speed_scale: 0.5,
        zero_length: -0.0,
        fallback: [0.0, 1.0, 0.0],
    };
    let poses = run_frame(&mut state, &scene, input);
    assert_eq!(lengths(state.points()), vec![0.0, 0.0, 4.0]);
    assert!(state.points()[0].segment_length.is_sign_negative());
    // the first segment has no direction and no length; the second is laid at half its length
    assert_eq!(state.points()[1].current, ORIGIN);
    assert_eq!(state.points()[2].current, [0.0, 0.0, 2.0]);
    assert_eq!(poses[2].unwrap().offset, [0.0, 0.0, 2.0]);
}

#[test]
fn frame_lays_a_collapsed_segment_along_the_fallback() {
    let mut state = State::from_points(vec![point(ORIGIN, 0.0), point(ORIGIN, 2.0)]);
    let scene = vec![Some(sample(ORIGIN, 0)), Some(sample(ORIGIN, 0))];
    let mut sideways = input(0.1, 5.0, 1.0);
    sideways.fallback = [1.0, 0.0, 0.0];
    let poses = run_frame(&mut state, &scene, sideways);
    assert_eq!(state.points()[1].current, [2.0, 0.0, 0.0]);
    assert!(finite(poses[1].unwrap().offset));
}

#[test]
fn frame_with_a_missing_joint_still_writes_the_others() {
    let mut state = State::new();
    let scene = straight_scene(9, 1.0);
    run_frame(&mut state, &scene, input(0.1, 5.0, 1.0));
    let mut holed = scene.clone();
    holed[5] = None;
    let poses = run_frame(&mut state, &holed, input(0.1, 5.0, 1.0));
    assert_eq!(state.len(), 9);
    for joint in 1..9 {
        assert_eq!(poses[joint].is_some(), joint != 5);
    }
}

#[test]
fn frame_that_cannot_rebuild_writes_nothing() {
    let mut state = State::new();
    let mut scene = straight_scene(9, 1.0);
    scene[7] = None;
    let poses = run_frame(&mut state, &scene, input(0.1, 5.0, 1.0));
    assert_eq!(state.len(), 0);
    assert_eq!(poses, vec![None; 9]);
}

#[test]
fn same_frame_twice_gives_the_same_result() {
    let start: Vec<Point> = (0..9)
        .map(|i| moving([0.1 * i as f32, 0.0, i as f32], [0.0, 0.2, i as f32], 0, 0.8))
        .collect();
    let scene = straight_scene(9, 1.0);
    let mut one = State::from_points(start.clone());
    let mut other = State::from_points(start);
    let poses_one = run_frame(&mut one, &scene, input(0.016, 5.0, 0.9));
    let poses_other = run_frame(&mut other, &scene, input(0.016, 5.0, 0.9));
    assert_eq!(poses_one, poses_other);
    assert_eq!(currents(one.points()), currents(other.points()));
}

#[test]
fn still_chain_settles() {
    let start: Vec<Point> = (0..9)
        .map(|i| point([0.3 * i as f32, 0.0, 2.0 * i as f32], if i == 0 { 0.0 } else { 1.0 }))
        .collect();
    let mut state = State::from_points(start);
    let scene: Vec<Option<Sample>> = (0..9).map(|_| Some(sample(ORIGIN, 0))).collect();
    for tick in 0..90 {
        let before = currents(state.points());
        run_frame(&mut state, &scene, input(1.0 / 60.0, 5.0, 1.0));
        if tick >= 60 {
            for (was, now) in before.iter().zip(state.points().iter()) {
                assert!(distance(*was, now.current) < 1e-4);
            }
        }
    }
    assert_eq!(state.points()[0].current, ORIGIN);
    for i in 1..9 {
        let apart = distance(state.points()[i].current, state.points()[i - 1].current);
        assert!((apart - 1.0).abs() < 1e-4);
    }
}
