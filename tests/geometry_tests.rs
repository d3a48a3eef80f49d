use detect_backend::geometry::BoundingBox;

fn bx(xc: i32, yc: i32, w: i32, h: i32) -> BoundingBox {
    BoundingBox { xc, yc, w, h }
}

#[test]
fn iou_identical_boxes_is_one() {
    let a = bx(1_000_000, 1_000_000, 1_000_000, 1_000_000);
    let (n, d) = a.iou(&a);
    assert!(d > 0);
    assert_eq!(n, d);
    assert!(a.suppresses(&a));
}

#[test]
fn iou_disjoint_boxes_is_zero() {
    let a = bx(10_000_000, 10_000_000, 4_000_000, 4_000_000);
    let b = bx(60_000_000, 60_000_000, 4_000_000, 4_000_000);
    assert_eq!(a.intersection(&b), 0);
    assert_eq!(a.iou(&b).0, 0);
    assert!(!a.suppresses(&b));
}

#[test]
fn iou_zero_area_box_is_zero() {
    let a = bx(10_000_000, 10_000_000, 0, 4_000_000);
    let b = bx(10_000_000, 10_000_000, 4_000_000, 4_000_000);
    assert_eq!(a.iou(&b).0, 0);
    assert_eq!(b.iou(&a).0, 0);
    assert_eq!(a.iou(&a), (0, 1));
    assert!(!a.suppresses(&a));
    assert!(!b.suppresses(&a));
}

#[test]
fn intersection_and_union_values() {
    // Two 2x2 boxes overlapping in a 1x2 strip: areas are reported times four.
    let a = bx(0, 0, 2, 2);
    let b = bx(1, 0, 2, 2);
    assert_eq!(a.intersection(&b), 8);
    assert_eq!(a.union(&b), 16 + 16 - 8);
    assert_eq!(a.iou(&b), (8, 24));
}

#[test]
fn suppression_threshold_is_inclusive() {
    // overlap 7 of a 10-wide box: 70/130 is below seven tenths
    let a = bx(0, 0, 10, 1);
    let b = bx(3, 0, 10, 1);
    assert!(!a.suppresses(&b));
    // 18/20 reaches it
    let c = bx(0, 0, 19, 1);
    let d = bx(1, 0, 19, 1);
    assert!(c.suppresses(&d));
}
