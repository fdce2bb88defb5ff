use dungeon_digger::rect::Rectangle;

#[test]
fn components_should_be_true_when_rectangles_intersect() {
    let rectangle1 = Rectangle {
        x: 0,
        y: 0,
        width: 5,
        height: 5,
    };

    // this is exactly one tile overlap on (4/4)
    let rectangle2 = Rectangle {
        x: 4,
        y: 4,
        width: 5,
        height: 5,
    };

    assert!(rectangle1.intersects(&rectangle2));
}

#[test]
fn components_should_be_false_when_rectangles_dont_intersect() {
    let rectangle1 = Rectangle {
        x: 0,
        y: 0,
        width: 5,
        height: 5,
    };

    let rectangle2 = Rectangle {
        x: 5,
        y: 5,
        width: 5,
        height: 5,
    };

    assert!(!rectangle1.intersects(&rectangle2));
}

#[test]
fn components_should_be_true_when_rectangle_center_too_close_to_bounds() {
    // center 3/3
    let units = 3;
    let rectangle1 = Rectangle {
        x: 0,
        y: 0,
        width: 6,
        height: 6,
    };

    let rectangle2 = Rectangle {
        x: 2,
        y: 2,
        width: 5,
        height: 5,
    };

    assert!(rectangle1.center_x_units_away_from_bounds(&rectangle2, units));
}

#[test]
fn components_should_be_false_when_rectangle_center_not_too_close_to_bounds() {
    // center 3/3
    let units = 3;
    let rectangle1 = Rectangle {
        x: 0,
        y: 0,
        width: 6,
        height: 6,
    };

    let rectangle2 = Rectangle {
        x: 3,
        y: 3,
        width: 5,
        height: 5,
    };

    assert!(rectangle1.center_x_units_away_from_bounds(&rectangle2, units));
}

#[test]
fn data_should_be_true_when_rectangles_intersect() {
    let rectangle1 = Rectangle {
        x: 0,
        y: 0,
        width: 5,
        height: 5,
    };

    // this is exactly one tile overlap on (4/4)
    let rectangle2 = Rectangle {
        x: 4,
        y: 4,
        width: 5,
        height: 5,
    };

    assert!(rectangle1.intersects(&rectangle2));
}

#[test]
fn data_should_be_false_when_rectangles_dont_intersect() {
    let rectangle1 = Rectangle {
        x: 0,
        y: 0,
        width: 5,
        height: 5,
    };

    let rectangle2 = Rectangle {
        x: 5,
        y: 5,
        width: 5,
        height: 5,
    };

    assert!(!rectangle1.intersects(&rectangle2));
}

#[test]
fn data_should_be_true_when_rectangle_center_too_close_to_bounds() {
    // center 3/3
    let units = 3;
    let rectangle1 = Rectangle {
        x: 0,
        y: 0,
        width: 6,
        height: 6,
    };

    let rectangle2 = Rectangle {
        x: 2,
        y: 2,
        width: 5,
        height: 5,
    };

    assert!(rectangle1.center_x_units_away_from_bounds(&rectangle2, units));
}

#[test]
fn data_should_be_false_when_rectangle_center_not_too_close_to_bounds() {
    // center 3/3
    let units = 3;
    let rectangle1 = Rectangle {
        x: 0,
        y: 0,
        width: 6,
        height: 6,
    };

    let rectangle2 = Rectangle {
        x: 3,
        y: 3,
        width: 5,
        height: 5,
    };

    assert!(rectangle1.center_x_units_away_from_bounds(&rectangle2, units));
}

#[test]
fn center_exactly_at_threshold_is_not_too_close() {
    // center of the first room sits exactly 3 cells from the second room's
    // near edge: the comparison is strict, so this does not count as close
    let first = Rectangle::new(0, 0, 6, 6);
    let second = Rectangle::new(6, 6, 5, 5);
    assert_eq!(first.center(), (3, 3));
    assert!(!first.center_x_units_away_from_bounds(&second, 3));
    // one cell nearer and it does
    let nearer = Rectangle::new(5, 5, 5, 5);
    assert!(first.center_x_units_away_from_bounds(&nearer, 3));
}

#[test]
fn min_max_and_center_corners() {
    let r = Rectangle::new(2, 3, 6, 7);
    assert_eq!(r.min(), (2, 3));
    assert_eq!(r.max(), (7, 9));
    assert_eq!(r.center(), (5, 6));
}

#[test]
fn touches_within_threshold() {
    let a = Rectangle::new(0, 0, 6, 6);
    // facing edges 3 cells apart on x: within the threshold of 4
    let b = Rectangle::new(8, 20, 6, 6);
    assert!(a.touches(&b));
    // facing edges 4 cells apart on every axis pairing: not touching
    let c = Rectangle::new(9, 20, 6, 6);
    assert!(!a.touches(&c));
}
