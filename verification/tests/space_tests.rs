use tileboard::space::{Dimension, Distance, Line, Location, Orientation, Orientations, Vector};

// Dimension =====

#[test]
fn dimension_of_width_height() {
    // given
    let width: u32 = 1;
    let height: u32 = 2;

    // when
    let result = Dimension::of((width, height));

    // then
    assert_eq!(result.width(), width);
    assert_eq!(result.height(), height);
    assert_eq!(result.depth(), 1);
}

#[test]
fn dimension_of_width_height_depth() {
    // given
    let width: u32 = 1;
    let height: u32 = 2;
    let depth: u32 = 3;

    // when
    let result = Dimension::of((width, height, depth));

    // then
    assert_eq!(result.width(), width);
    assert_eq!(result.height(), height);
    assert_eq!(result.depth(), depth);
}

#[test]
fn dimension_try_of_illegal_values() {
    assert!(Dimension::try_of(0, 1, 1).is_none());
    assert!(Dimension::try_of(1, 0, 1).is_none());
    assert!(Dimension::try_of(1, 1, 0).is_none());
    assert!(Dimension::try_of(1, 1, 1).is_some());
}

#[test]
fn dimension_contains() {
    let dimension = Dimension::of((2u32, 2u32, 2u32));
    let cases: Vec<(i32, i32, i32, bool)> = vec![
        (0, 0, 0, true),
        (1, 0, 0, true),
        (0, 1, 0, true),
        (0, 0, 1, true),
        (0, 1, 1, true),
        (1, 0, 1, true),
        (1, 1, 0, true),
        (1, 1, 1, true),
        (2, 0, 0, false),
        (0, 2, 0, false),
        (0, 0, 2, false),
        (-1, 0, 0, false),
        (0, -1, 0, false),
        (0, 0, -1, false),
    ];
    for (x, y, z, expected) in cases {
        assert_eq!(dimension.contains(&Location::at((x, y, z))), expected);
    }
}

// Distance =====

#[test]
fn distance_zero() {
    // when
    let result = Distance::zero();

    // then
    assert_eq!(result.x(), 0);
    assert_eq!(result.y(), 0);
    assert_eq!(result.z(), 0);
}

#[test]
fn distance_max() {
    // when
    let result = Distance::max();

    // then
    assert_eq!(result.x(), i32::MAX);
    assert_eq!(result.y(), i32::MAX);
    assert_eq!(result.z(), i32::MAX);
}

#[test]
fn distance_of_xy() {
    // given
    let x: i32 = 1;
    let y: i32 = 2;

    // when
    let result = Distance::of((x, y));

    // then
    assert_eq!(result.x(), x);
    assert_eq!(result.y(), y);
    assert_eq!(result.z(), 0);
}

#[test]
fn distance_of_xyz() {
    // given
    let x: i32 = 1;
    let y: i32 = 2;
    let z: i32 = 3;

    // when
    let result = Distance::of((x, y, z));

    // then
    assert_eq!(result.x(), x);
    assert_eq!(result.y(), y);
    assert_eq!(result.z(), z);
}

#[test]
fn distance_of_xyz_negative() {
    let cases: Vec<(i32, i32, i32)> = vec![(-1, 0, 0), (0, -1, 0), (0, 0, -1)];
    for (x, y, z) in cases {
        let result = Distance::of((x, y, z));
        assert_eq!(result.x(), x.abs());
        assert_eq!(result.y(), y.abs());
        assert_eq!(result.z(), z.abs());
    }
}

#[test]
fn distance_between() {
    let cases: Vec<(i32, i32, i32, i32, i32, i32, i32, i32, i32)> = vec![
        (1, 1, 1, 2, 2, 2, 1, 1, 1),
        (2, 2, 2, 1, 1, 1, 1, 1, 1),
        (0, 0, 0, 1, 0, 0, 1, 0, 0),
        (0, 0, 0, 0, 1, 0, 0, 1, 0),
        (0, 0, 0, 0, 0, 1, 0, 0, 1),
    ];
    for (sx, sy, sz, ex, ey, ez, dx, dy, dz) in cases {
        let start = Location::at((sx, sy, sz));
        let end = Location::at((ex, ey, ez));
        assert_eq!(Distance::between(&start, &end), Distance::of((dx, dy, dz)));
    }
}

#[test]
fn distance_between_self_is_zero() {
    let location = Location::at((7, -3, 11));
    assert_eq!(Distance::between(&location, &location), Distance::zero());
}

#[test]
fn distance_is_within() {
    let cases: Vec<(i32, i32, i32, bool)> = vec![
        (0, 0, 0, true),
        (1, 0, 0, true),
        (0, 1, 0, true),
        (0, 0, 1, true),
        (0, 1, 1, true),
        (1, 0, 1, true),
        (1, 1, 0, true),
        (1, 1, 1, true),
        (2, 0, 0, false),
        (0, 2, 0, false),
        (0, 0, 2, false),
    ];
    for (x, y, z, expected) in cases {
        let distance = Distance::of((x, y, z));
        assert_eq!(distance.is_within(&Distance::of((1, 1, 1))), expected);
    }
}

#[test]
fn distance_is_within_max() {
    let distances: Vec<Distance> = vec![
        Distance::zero(),
        Distance::max(),
        Distance::of((3, 1, 4)),
        Distance::of((-100, 50, -2)),
    ];
    for distance in distances {
        assert!(distance.is_within(&Distance::max()));
    }
}

// Line =====

#[test]
fn line_start() {
    // given
    let start = Location::at((1, 2, 3));
    let end = Location::at((4, 5, 6));

    // when
    let result = Line::between(&start, &end);

    // then
    assert_eq!(result.start(), start);
}

#[test]
fn line_end() {
    // given
    let start = Location::at((1, 2, 3));
    let end = Location::at((4, 5, 6));

    // when
    let result = Line::between(&start, &end);

    // then
    assert_eq!(result.end(), end);
}

#[test]
fn line_point() {
    // given
    let point = Location::at((1, 1, 1));

    // when
    let result = Line::between(&point, &point);

    // then
    assert_eq!(result.start(), result.end());
}

#[test]
fn line_degenerate_single_member() {
    let point = Location::at((1, 1, 1));
    let result = Line::between(&point, &point);
    assert!(result.contains(&point));
    assert!(!result.contains(&Location::at((1, 1, 2))));
    assert_eq!(result.start(), point);
    assert_eq!(result.end(), point);
}

#[test]
fn line_contains_x_axis() {
    let line = Line::between(&Location::at((1, 1, 1)), &Location::at((4, 1, 1)));
    let cases: Vec<(i32, i32, i32, bool)> = vec![
        (0, 1, 1, false),
        (1, 0, 1, false),
        (1, 1, 0, false),
        (1, 1, 1, true),
        (2, 1, 1, true),
        (3, 1, 1, true),
        (4, 1, 1, true),
        (5, 1, 1, false),
        (2, 2, 1, false),
        (2, 0, 1, false),
    ];
    for (x, y, z, expected) in cases {
        assert_eq!(line.contains(&Location::at((x, y, z))), expected);
    }
}

#[test]
fn line_contains_y_axis() {
    let line = Line::between(&Location::at((1, 1, 1)), &Location::at((1, 4, 1)));
    let cases: Vec<(i32, i32, i32, bool)> = vec![
        (0, 1, 1, false),
        (1, 0, 1, false),
        (1, 1, 0, false),
        (1, 1, 1, true),
        (1, 2, 1, true),
        (1, 3, 1, true),
        (1, 4, 1, true),
        (1, 5, 1, false),
        (2, 2, 1, false),
        (0, 2, 1, false),
    ];
    for (x, y, z, expected) in cases {
        assert_eq!(line.contains(&Location::at((x, y, z))), expected);
    }
}

#[test]
fn line_contains_z_axis() {
    let line = Line::between(&Location::at((1, 1, 1)), &Location::at((1, 1, 4)));
    let cases: Vec<(i32, i32, i32, bool)> = vec![
        (0, 1, 1, false),
        (1, 0, 1, false),
        (1, 1, 0, false),
        (1, 1, 1, true),
        (1, 1, 2, true),
        (1, 1, 3, true),
        (1, 1, 4, true),
        (1, 1, 5, false),
        (1, 2, 2, false),
        (1, 2, 0, false),
    ];
    for (x, y, z, expected) in cases {
        assert_eq!(line.contains(&Location::at((x, y, z))), expected);
    }
}

#[test]
fn line_contains_diagonal() {
    let line = Line::between(&Location::at((1, 1, 1)), &Location::at((4, 4, 4)));
    let cases: Vec<(i32, i32, i32, bool)> = vec![
        (0, 0, 0, false),
        (1, 1, 1, true),
        (2, 2, 2, true),
        (3, 3, 3, true),
        (4, 4, 4, true),
        (5, 5, 5, false),
        (2, 1, 2, false),
        (2, 3, 2, false),
    ];
    for (x, y, z, expected) in cases {
        assert_eq!(line.contains(&Location::at((x, y, z))), expected);
    }
}

#[test]
fn line_endpoints_always_members() {
    let endpoints: Vec<(Location, Location)> = vec![
        (Location::at((1, 2, 3)), Location::at((4, 5, 6))),
        (Location::at((4, 1, 1)), Location::at((1, 1, 1))),
        (Location::at((-3, 7, 0)), Location::at((5, -2, 9))),
        (Location::at((0, 0, 0)), Location::at((0, 0, 0))),
    ];
    for (start, end) in endpoints {
        let line = Line::between(&start, &end);
        assert!(line.contains(&start));
        assert!(line.contains(&end));
    }
}

// Location =====

#[test]
fn location_at_xy() {
    // given
    let x: i32 = 1;
    let y: i32 = 2;

    // when
    let result = Location::at((x, y));

    // then
    assert_eq!(result.x(), x);
    assert_eq!(result.y(), y);
    assert_eq!(result.z(), 0);
}

#[test]
fn location_at_xyz() {
    // given
    let x: i32 = 1;
    let y: i32 = 2;
    let z: i32 = 3;

    // when
    let result = Location::at((x, y, z));

    // then
    assert_eq!(result.x(), x);
    assert_eq!(result.y(), y);
    assert_eq!(result.z(), z);
}

#[test]
fn location_go_positive() {
    // given
    let location = Location::at((1, 1, 1));
    let vector = Vector::of((1, 1, 1));

    // when
    let result = location.go(&vector);

    // then
    assert_eq!(result, Location::at((2, 2, 2)));
}

#[test]
fn location_go_negative() {
    // given
    let location = Location::at((2, 2, 2));
    let vector = Vector::of((-1, -1, -1));

    // when
    let result = location.go(&vector);

    // then
    assert_eq!(result, Location::at((1, 1, 1)));
}

#[test]
fn location_is_within() {
    let start = Location::at((2, 2, 2));
    let cases: Vec<(i32, i32, i32, i32, i32, i32, bool)> = vec![
        (1, 1, 1, 3, 3, 3, true),
        (2, 1, 1, 4, 3, 3, true),
        (1, 2, 1, 3, 4, 3, true),
        (1, 1, 2, 3, 3, 4, true),
        (1, 1, 1, 1, 1, 1, true),
        (1, 1, 1, 4, 4, 4, false),
        (1, 1, 1, 4, 3, 3, false),
        (1, 1, 1, 3, 4, 3, false),
        (1, 1, 1, 3, 3, 4, false),
    ];
    for (dx, dy, dz, tx, ty, tz, expected) in cases {
        let distance = Distance::of((dx, dy, dz));
        let target = Location::at((tx, ty, tz));
        assert_eq!(start.is_within(&distance, &target), expected);
    }
}

// Orientations =====

#[test]
fn orientations_xy() {
    // when
    let result = Orientations::xy();

    // then
    assert_eq!(result[0], Orientations::x());
    assert_eq!(result[1], Orientations::y());
}

#[test]
fn orientations_xyz() {
    // when
    let result = Orientations::xyz();

    // then
    assert_eq!(result[0], Orientations::x());
    assert_eq!(result[1], Orientations::y());
    assert_eq!(result[2], Orientations::z());
}

#[test]
fn orientations_go() {
    let cases: Vec<(Orientation, Location, i32, Location)> = vec![
        (Orientations::x(), Location::at((1, 1, 1)), -1, Location::at((0, 1, 1))),
        (Orientations::x(), Location::at((1, 1, 1)), 1, Location::at((2, 1, 1))),
        (Orientations::y(), Location::at((1, 1, 1)), -1, Location::at((1, 0, 1))),
        (Orientations::y(), Location::at((1, 1, 1)), 1, Location::at((1, 2, 1))),
        (Orientations::z(), Location::at((1, 1, 1)), -1, Location::at((1, 1, 0))),
        (Orientations::z(), Location::at((1, 1, 1)), 1, Location::at((1, 1, 2))),
    ];
    for (orientation, start, amount, end) in cases {
        assert_eq!(orientation.go(&start, amount), end);
    }
}

#[test]
fn orientations_contains() {
    let cases: Vec<(Orientation, Distance, bool)> = vec![
        (Orientations::x(), Distance::of((1, 0, 0)), true),
        (Orientations::x(), Distance::of((0, 1, 0)), false),
        (Orientations::x(), Distance::of((0, 0, 1)), false),
        (Orientations::y(), Distance::of((1, 0, 0)), false),
        (Orientations::y(), Distance::of((0, 1, 0)), true),
        (Orientations::y(), Distance::of((0, 0, 1)), false),
        (Orientations::z(), Distance::of((1, 0, 0)), false),
        (Orientations::z(), Distance::of((0, 1, 0)), false),
        (Orientations::z(), Distance::of((0, 0, 1)), true),
    ];
    for (orientation, distance, expected) in cases {
        assert_eq!(orientation.contains(&distance), expected);
    }
}

#[test]
fn orientations_eq() {
    assert_eq!(Orientations::x(), Orientations::x());
    assert_eq!(Orientations::y(), Orientations::y());
    assert_eq!(Orientations::z(), Orientations::z());
    assert_ne!(Orientations::x(), Orientations::y());
    assert_ne!(Orientations::x(), Orientations::z());
    assert_ne!(Orientations::y(), Orientations::z());
}

// Vector =====

#[test]
fn vector_of_xy() {
    // given
    let x: i32 = 1;
    let y: i32 = 2;

    // when
    let result = Vector::of((x, y));

    // then
    assert_eq!(result.x(), x);
    assert_eq!(result.y(), y);
    assert_eq!(result.z(), 0);
}

#[test]
fn vector_of_xyz() {
    // given
    let x: i32 = 1;
    let y: i32 = 2;
    let z: i32 = 3;

    // when
    let result = Vector::of((x, y, z));

    // then
    assert_eq!(result.x(), x);
    assert_eq!(result.y(), y);
    assert_eq!(result.z(), z);
}

#[test]
fn vector_from() {
    let cases: Vec<(i32, i32, i32, i32, i32, i32)> = vec![
        (1, 1, 1, 2, 1, 1),
        (1, 1, 1, 1, 2, 1),
        (1, 1, 1, 1, 1, 2),
        (2, 1, 1, 1, 1, 1),
        (1, 2, 1, 1, 1, 1),
        (1, 1, 2, 1, 1, 1),
        (-1, -1, -1, 1, 1, 1),
    ];
    for (sx, sy, sz, ex, ey, ez) in cases {
        let start = Location::at((sx, sy, sz));
        let end = Location::at((ex, ey, ez));
        let result = Vector::from(&start, &end);
        assert_eq!(result, Vector::of((ex - sx, ey - sy, ez - sz)));
    }
}
