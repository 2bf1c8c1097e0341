use media_graph::control::{evaluate_control_points, insert_sorted, remove_points_with_id};
use media_graph::protocol::{ControlMode, ControlPoint, Value};

fn point(id: &str, time: i64, value: Value, mode: ControlMode) -> ControlPoint {
    ControlPoint { id: id.to_string(), time, value, mode }
}

fn num(units: i64) -> Value {
    Value::Number(units * 1_000_000)
}

const NOW: i64 = 1_700_000_000_000;

#[test]
fn evaluate_returns_none_for_empty_points() {
    assert!(evaluate_control_points(&vec![], NOW).is_none());
}

#[test]
fn evaluate_set_mode_uses_latest_point_at_or_before_timestamp() {
    let points = vec![
        point("a", NOW - 10_000, Value::Number(100_000), ControlMode::Step),
        point("b", NOW - 2_000, Value::Number(500_000), ControlMode::Step),
        point("c", NOW + 10_000, Value::Number(900_000), ControlMode::Step),
    ];
    let value = evaluate_control_points(&points, NOW).unwrap();
    assert!(value == Value::Number(500_000));
}

#[test]
fn evaluate_before_first_point_returns_first_value() {
    let points = vec![
        point("a", NOW + 3_000, num(7), ControlMode::Step),
        point("b", NOW + 5_000, num(9), ControlMode::Step),
    ];
    let value = evaluate_control_points(&points, NOW).unwrap();
    assert!(value == num(7));
}

#[test]
fn evaluate_interpolates_numeric_values() {
    let points = vec![
        point("a", NOW - 10_000, num(10), ControlMode::Interpolate),
        point("b", NOW + 10_000, num(30), ControlMode::Step),
    ];
    let value = evaluate_control_points(&points, NOW).unwrap();
    match value {
        Value::Number(n) => assert!((n - 20_000_000).abs() < 1_000),
        other => panic!("expected a number, got {other:?}"),
    }
}

#[test]
fn evaluate_interpolate_with_non_numeric_values_falls_back_to_current() {
    let points = vec![
        point("a", NOW - 1_000, Value::Text("left".to_string()), ControlMode::Interpolate),
        point("b", NOW + 1_000, Value::Text("right".to_string()), ControlMode::Step),
    ];
    let value = evaluate_control_points(&points, NOW).unwrap();
    assert!(value == Value::Text("left".to_string()));
}

#[test]
fn evaluate_interpolate_with_same_timestamp_does_not_divide_by_zero() {
    let points = vec![point("a", NOW + 1_000, num(42), ControlMode::Interpolate)];
    let value = evaluate_control_points(&points, NOW).unwrap();
    assert!(value == num(42));
}

#[test]
fn single_point_holds_its_value_at_every_instant() {
    let points = vec![point("only", NOW, num(3), ControlMode::Interpolate)];
    for at in [NOW - 5_000, NOW, NOW + 5_000] {
        assert!(evaluate_control_points(&points, at).unwrap() == num(3));
    }
}

#[test]
fn step_series_is_right_continuous() {
    let points = vec![
        point("a", 1_000, num(1), ControlMode::Step),
        point("b", 2_000, num(2), ControlMode::Step),
        point("c", 3_000, num(3), ControlMode::Step),
    ];
    assert!(evaluate_control_points(&points, 999).unwrap() == num(1));
    assert!(evaluate_control_points(&points, 1_999).unwrap() == num(1));
    assert!(evaluate_control_points(&points, 2_000).unwrap() == num(2));
    assert!(evaluate_control_points(&points, 2_500).unwrap() == num(2));
    assert!(evaluate_control_points(&points, 9_000).unwrap() == num(3));
}

#[test]
fn interpolation_midpoint_is_the_mean() {
    let points = vec![
        point("p", 0, num(2), ControlMode::Interpolate),
        point("q", 1_000, num(6), ControlMode::Step),
    ];
    assert!(evaluate_control_points(&points, 500).unwrap() == num(4));
    assert!(evaluate_control_points(&points, 250).unwrap() == num(3));
}

#[test]
fn interpolation_downwards_rounds_towards_start() {
    let points = vec![
        point("p", 0, Value::Number(10), ControlMode::Interpolate),
        point("q", 3, Value::Number(0), ControlMode::Step),
    ];
    assert!(evaluate_control_points(&points, 1).unwrap() == Value::Number(7));
}

#[test]
fn control_points_sort_by_timestamp() {
    let mut points = Vec::new();
    insert_sorted(&mut points, point("cp-20", NOW + 20_000, num(1), ControlMode::Step));
    insert_sorted(&mut points, point("cp--10", NOW - 10_000, num(2), ControlMode::Step));
    let k = insert_sorted(&mut points, point("cp-5", NOW + 5_000, num(3), ControlMode::Step));
    assert_eq!(k, 1);
    assert_eq!(points[0].id, "cp--10");
    assert_eq!(points[1].id, "cp-5");
    assert_eq!(points[2].id, "cp-20");
}

#[test]
fn equal_times_keep_insertion_order_and_removal_by_id() {
    let mut points = Vec::new();
    insert_sorted(&mut points, point("first", 10, num(1), ControlMode::Step));
    insert_sorted(&mut points, point("second", 10, num(2), ControlMode::Step));
    assert_eq!(points[1].id, "second");
    assert!(evaluate_control_points(&points, 10).unwrap() == num(2));
    remove_points_with_id(&mut points, &"second".to_string());
    assert_eq!(points.len(), 1);
    assert_eq!(points[0].id, "first");
}

#[test]
fn unsorted_series_takes_the_latest_point_in_force() {
    let points = vec![
        point("c", 3_000, num(3), ControlMode::Step),
        point("a", 1_000, num(1), ControlMode::Step),
        point("b", 2_000, num(2), ControlMode::Step),
    ];
    assert!(evaluate_control_points(&points, 500).unwrap() == num(1));
    assert!(evaluate_control_points(&points, 2_500).unwrap() == num(2));
    assert!(evaluate_control_points(&points, 3_000).unwrap() == num(3));
    let interp = vec![
        point("q", 2_000, num(6), ControlMode::Step),
        point("p", 0, num(2), ControlMode::Interpolate),
        point("r", 4_000, num(0), ControlMode::Step),
    ];
    assert!(evaluate_control_points(&interp, 1_000).unwrap() == num(4));
}
