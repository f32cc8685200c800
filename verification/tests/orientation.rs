use verlet_tail::orientation::orient;

fn turn_body(body: i32) -> i32 {
    body + 1
}

fn turn_head(body: i32, head: i32) -> i32 {
    body * 100 + head
}

fn single_axis(rotation: i32) -> i32 {
    -rotation
}

#[test]
fn orient_below_the_threshold_turns_nothing() {
    let turned = orient(10, Some(3), false, &turn_body, &turn_head, &single_axis);
    assert_eq!(turned, None);
}

#[test]
fn orient_turns_the_head_from_the_new_body_rotation() {
    let turned = orient(10, Some(3), true, &turn_body, &turn_head, &single_axis);
    assert_eq!(turned, Some((11, Some(-1103))));
}

#[test]
fn orient_without_a_head_turns_the_body_alone() {
    let turned = orient(10, None, true, &turn_body, &turn_head, &single_axis);
    assert_eq!(turned, Some((11, None)));
}

#[test]
fn orient_turns_real_angles() {
    let max_turn = 0.25f32;
    let toward =
        |target: f32| move |angle: f32| angle + (target - angle).clamp(-max_turn, max_turn);
    let body = toward(1.0);
    let head = |body: f32, head: f32| toward(1.0 - body)(head);
    let keep = |angle: f32| angle;
    assert_eq!(orient(0.0, Some(0.0), true, &body, &head, &keep), Some((0.25, Some(0.25))));
    assert_eq!(orient(0.9, Some(0.5), true, &body, &head, &keep), Some((1.0, Some(0.25))));
    assert_eq!(orient(0.9, Some(0.5), false, &body, &head, &keep), None);
}
