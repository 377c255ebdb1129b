use std::str::FromStr;

use chrono::{DateTime, TimeZone, Timelike, Utc};
use spatial_annotation_sync::crdt::{
    AnnotationId, Point, SpatialAnnotation, SpatialAnnotationInternal, SpatialEnvironment,
    Timestamp, UserId,
};

fn ts(dt: DateTime<Utc>) -> Timestamp {
    Timestamp::new(dt.timestamp(), dt.timestamp_subsec_nanos())
}

#[test]
fn mod_test_create_annotation() {
    let mut env = SpatialEnvironment::new();
    assert!(env.is_empty());
    let a1 = SpatialAnnotation::new(None, Point(0, 0), String::from("Home"));
    let a2 = SpatialAnnotation::new(None, Point(1, 0), String::from("Neighbor 1"));
    let _a1 = env.create_annotation(a1);
    let _a2 = env.create_annotation(a2);
    assert_eq!(env.len(), 2);
}

#[test]
fn mod_test_read_annotation() {
    let mut env = SpatialEnvironment::new();
    let a1 = SpatialAnnotation::new(None, Point(0, 0), String::from("Home"));
    let a1_clone = a1.clone();

    let a1_id = env.create_annotation(a1);
    let a1 = env
        .read_annotation(a1_id)
        .expect("read_annotation should return an existing id")
        .without_id();
    assert_eq!(a1, a1_clone);
}

#[test]
fn mod_test_update_annotation() {
    let mut env = SpatialEnvironment::new();
    let a1 = SpatialAnnotation::new(None, Point(0, 0), String::from("Home"));
    let mut a1_expected = a1.clone();
    a1_expected.update_coord(Some(Point(1, 0)));

    let _ = env.create_annotation(a1);
    let a1 = env
        .update_annotation(a1_expected.clone())
        .expect("update_annotation should return OK");
    assert_eq!(a1, a1_expected);
}

#[test]
fn mod_test_delete_annotation() {
    let mut env = SpatialEnvironment::new();
    let a1 = SpatialAnnotation::new(None, Point(0, 0), String::from("Home"));
    let mut a1_expected = a1.clone();
    a1_expected.update_coord(None);
    a1_expected.update_text(None);

    let a1_id = env.create_annotation(a1);
    let _ = env
        .delete_annotation(a1_id)
        .expect("delete_annotation should return OK");
    assert_eq!(env.len(), 1);
    let a1 = env
        .read_annotation(a1_id)
        .expect("read_annotation should return an existing id")
        .without_id();

    assert_eq!(a1, a1_expected);
}

#[test]
fn mod_test_merge() {
    let mut env_a = SpatialEnvironment::new();
    let mut env_b = SpatialEnvironment::new();

    let shared_id = AnnotationId::new(1);
    let a_only_id = AnnotationId::new(2);
    let b_only_id = AnnotationId::new(3);

    let earlier = Utc
        .with_ymd_and_hms(2026, 1, 1, 0, 0, 0)
        .single()
        .expect("A valid UTC datetime");
    let later = Utc
        .with_ymd_and_hms(2026, 1, 1, 0, 0, 1)
        .single()
        .expect("A valid UTC datetime");

    env_a.create_annotation_with_datetime(
        SpatialAnnotation::new(Some(shared_id), Point(0, 0), String::from("left-shared")),
        ts(earlier),
    );
    env_a.create_annotation_with_datetime(
        SpatialAnnotation::new(Some(a_only_id), Point(1, 1), String::from("left-only")),
        ts(earlier),
    );

    env_b.create_annotation_with_datetime(
        SpatialAnnotation::new(Some(shared_id), Point(5, 5), String::from("right-shared")),
        ts(later),
    );
    env_b.create_annotation_with_datetime(
        SpatialAnnotation::new(Some(b_only_id), Point(9, 9), String::from("right-only")),
        ts(later),
    );

    env_a.merge(env_b);

    assert_eq!(env_a.len(), 3);

    assert_eq!(
        env_a.read_annotation(shared_id),
        Some(SpatialAnnotation::new(
            Some(shared_id),
            Point(5, 5),
            String::from("right-shared")
        ))
    );
    assert_eq!(
        env_a.read_annotation(a_only_id),
        Some(SpatialAnnotation::new(
            Some(a_only_id),
            Point(1, 1),
            String::from("left-only")
        ))
    );
    assert_eq!(
        env_a.read_annotation(b_only_id),
        Some(SpatialAnnotation::new(
            Some(b_only_id),
            Point(9, 9),
            String::from("right-only")
        ))
    );
}

#[test]
fn test_merge_commutativity() {
    let mut env_a = SpatialEnvironment::new();
    let mut env_b = SpatialEnvironment::new();

    env_a.create_annotation(SpatialAnnotation::new(
        Some(AnnotationId::new(1)),
        Point(0, 0),
        String::from(""),
    ));

    env_b.create_annotation(SpatialAnnotation::new(
        Some(AnnotationId::new(1)),
        Point(0, 0),
        String::from(""),
    ));

    let mut a_b = env_a.clone();
    a_b.merge(env_b.clone());

    let mut b_a = env_b.clone();
    b_a.merge(env_a.clone());

    assert!(a_b.has_same_data(&b_a), "a merge b should be the same as b merge a");
}

#[test]
fn test_from_str_point() {
    let s = "(1, 2)";
    let res = Point::from_str(s).expect("Point was not parsed correctly");
    assert_eq!(res, Point(1, 2));
}

#[test]
fn lib_test_create_annotation() {
    let mut env = SpatialEnvironment::new();
    assert!(env.is_empty());
    let a1 = SpatialAnnotation::new(None, Point(0, 0), String::from("Home"));
    let a2 = SpatialAnnotation::new(None, Point(1, 0), String::from("Neighbor 1"));
    let _a1 = env.create_annotation(a1);
    let _a2 = env.create_annotation(a2);
    assert_eq!(env.len(), 2);
}

#[test]
fn lib_test_read_annotation() {
    let mut env = SpatialEnvironment::new();
    let a1 = SpatialAnnotation::new(None, Point(0, 0), String::from("Home"));
    let a1_clone = a1.clone();

    let a1_id = env.create_annotation(a1);
    let a1 = env
        .read_annotation(a1_id)
        .expect("read_annotation should return an existing id")
        .without_id();
    assert_eq!(a1, a1_clone);
}

#[test]
fn lib_test_update_annotation() {
    let mut env = SpatialEnvironment::new();
    let a1 = SpatialAnnotation::new(None, Point(0, 0), String::from("Home"));
    let mut a1_expected = a1.clone();
    a1_expected.update_coord(Some(Point(1, 0)));

    let _ = env.create_annotation(a1);
    let a1 = env
        .update_annotation(a1_expected.clone())
        .expect("update_annotation should return OK");
    assert_eq!(a1, a1_expected);
}

#[test]
fn lib_test_delete_annotation() {}

#[test]
fn lib_test_merge() {
    let _env_left = SpatialEnvironment::new();
    let _env_right = SpatialEnvironment::new();
}

#[test]
fn models_test_merge() {
    let annotation_id = Some(AnnotationId::new(1));
    let left_values = (Point(0, 0), String::from("A"));
    let right_values = (Point(5, 5), String::from("B"));

    let baseline_user = UserId(1);
    let earlier_user = UserId(0);
    let later_user = UserId(2);
    let baseline_date: DateTime<Utc> = Utc
        .with_ymd_and_hms(2026, 1, 1, 0, 0, 1)
        .single()
        .expect("A valid UTC datetime");
    let earlier_date = baseline_date.with_second(0).expect("A valid UTC datetime");
    let later_date = baseline_date.with_second(2).expect("A valid UTC datetime");

    let tests = [
        ((baseline_user, baseline_date), (earlier_user, earlier_date), "left"),
        ((baseline_user, baseline_date), (earlier_user, baseline_date), "right"),
        ((baseline_user, baseline_date), (earlier_user, later_date), "right"),
        ((baseline_user, baseline_date), (baseline_user, earlier_date), "left"),
        ((baseline_user, baseline_date), (baseline_user, baseline_date), "left"),
        ((baseline_user, baseline_date), (baseline_user, later_date), "right"),
        ((baseline_user, baseline_date), (later_user, earlier_date), "left"),
        ((baseline_user, baseline_date), (later_user, baseline_date), "left"),
        ((baseline_user, baseline_date), (later_user, later_date), "right"),
    ];
    for scenario in tests {
        let ((left_user, left_date), (right_user, right_date), expected) = scenario;
        let (left_coord, left_str) = left_values.clone();
        let (right_coord, right_str) = right_values.clone();
        let mut left = SpatialAnnotationInternal::new(
            SpatialAnnotation::new(annotation_id, left_coord, left_str),
            left_user,
            ts(left_date),
        );
        let right = SpatialAnnotationInternal::new(
            SpatialAnnotation::new(annotation_id, right_coord, right_str),
            right_user,
            ts(right_date),
        );
        let expected = match expected {
            "left" => left.clone(),
            "right" => right.clone(),
            _ => panic!("Bad expected value"),
        };

        left.merge(right);
        assert_eq!(left, expected);
    }
}
