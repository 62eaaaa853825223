use tileboard::space::vector::Vector;

#[test]
fn of_xy() {
    // given
    let x: i32 = 1;
    let y: i32 = 2;

    // when
    let result = Vector::of((x, y));

    // then
    assert_eq!(result, Vector { x, y, z: 0 });
}

#[test]
fn of_xyz() {
    // given
    let x: i32 = 1;
    let y: i32 = 2;
    let z: i32 = 3;

    // when
    let result = Vector::of((x, y, z));

    // then
    assert_eq!(result, Vector { x, y, z });
}
