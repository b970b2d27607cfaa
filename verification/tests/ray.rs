use std::f64::consts::PI;
use webcasting_wasm::binary64::Binary64;
use webcasting_wasm::ray::{
    begin, direction, turn, Axis, March, Turn, FULL_TURN, HALF_TURN, QUARTER_TURN,
    THREE_QUARTER_TURN,
};
use webcasting_wasm::tile_map::TileMap;
use webcasting_wasm::vec2::Vec2;
use webcasting_wasm::wall::Wall;

fn pattern(value: f64) -> Binary64 {
    Binary64::from_bits(value.to_bits())
}

fn float(value: Binary64) -> f64 {
    f64::from_bits(value.to_bits())
}

fn march(tile: (f64, f64), pending: (f64, f64), travelled: f64) -> March {
    March {
        tile: Vec2::new(pattern(tile.0), pattern(tile.1)),
        pending: Vec2::new(pattern(pending.0), pattern(pending.1)),
        travelled: pattern(travelled),
    }
}

/// Three columns of three rows with one wall, in the middle.
fn walled() -> TileMap {
    let mut cells = vec![pattern(0.0); 9];
    cells[4] = pattern(1.0);
    TileMap::try_from_cells(&cells, 3, 3).unwrap()
}

fn ended(r: Option<(Binary64, Wall)>) -> Option<(f64, Wall)> {
    r.map(|(d, w)| (float(d), w))
}

#[test]
fn the_turn_constants_are_the_doubles_of_the_turns() {
    assert_eq!(QUARTER_TURN, (PI * 0.5).to_bits());
    assert_eq!(HALF_TURN, PI.to_bits());
    assert_eq!(THREE_QUARTER_TURN, (PI * 1.5).to_bits());
    assert_eq!(FULL_TURN, (2.0 * PI).to_bits());
}

#[test]
fn an_angle_in_range_is_kept() {
    for angle in [0.0, -0.0, 1.0, PI, 6.0, 2.0 * PI] {
        assert_eq!(turn(pattern(angle)), Turn::Keep, "{angle}");
    }
}

#[test]
fn an_angle_above_a_full_turn_is_turned_back() {
    let just_above = f64::from_bits((2.0 * PI).to_bits() + 1);
    for angle in [just_above, 7.0, 100.0, f64::INFINITY] {
        assert_eq!(turn(pattern(angle)), Turn::Back, "{angle}");
    }
}

#[test]
fn an_angle_below_zero_is_turned_forward() {
    for angle in [-5e-324, -0.5, -100.0, f64::NEG_INFINITY] {
        assert_eq!(turn(pattern(angle)), Turn::Forward, "{angle}");
    }
}

#[test]
fn an_angle_that_is_not_a_number_is_kept() {
    assert_eq!(turn(pattern(f64::NAN)), Turn::Keep);
}

#[test]
fn repeated_turns_bring_an_angle_into_range() {
    for start in [-20.0, -0.1, 0.0, 3.0, 6.3, 13.0, 50.0] {
        let mut angle: f64 = start;
        let mut turns = 0;
        loop {
            match turn(pattern(angle)) {
                Turn::Back => angle -= 2.0 * PI,
                Turn::Forward => angle += 2.0 * PI,
                Turn::Keep => break,
            }
            turns += 1;
            assert!(turns < 20);
        }
        assert!(angle >= 0.0 && angle <= 2.0 * PI, "{start} became {angle}");
        assert!((angle.sin() - start.sin()).abs() < 1e-12);
    }
}

#[test]
fn the_direction_follows_the_quadrant() {
    let cases = [
        (0.0, 1.0, 1.0),
        (1.0, 1.0, -1.0),
        (2.0, -1.0, -1.0),
        (3.0, -1.0, -1.0),
        (4.0, -1.0, 1.0),
        (5.0, 1.0, 1.0),
        (6.0, 1.0, 1.0),
    ];
    for (angle, x, y) in cases {
        let d = direction(pattern(angle));
        assert_eq!((float(d.x), float(d.y)), (x, y), "{angle}");
    }
}

#[test]
fn the_direction_at_the_quarter_turns() {
    let signs = |angle: f64| {
        let d = direction(pattern(angle));
        (float(d.x), float(d.y))
    };
    assert_eq!(signs(PI * 0.5), (1.0, -1.0));
    assert_eq!(signs(f64::from_bits((PI * 0.5).to_bits() + 1)), (-1.0, -1.0));
    assert_eq!(signs(PI), (-1.0, 1.0));
    assert_eq!(signs(f64::from_bits(PI.to_bits() - 1)), (-1.0, -1.0));
    assert_eq!(signs(PI * 1.5), (1.0, 1.0));
    assert_eq!(signs(f64::from_bits((PI * 1.5).to_bits() - 1)), (-1.0, 1.0));
    assert_eq!(signs(2.0 * PI), (1.0, 1.0));
    assert_eq!(signs(5e-324), (1.0, -1.0));
    assert_eq!(signs(f64::NAN), (1.0, 1.0));
}

#[test]
fn a_depth_that_is_not_above_zero_ends_the_cast_at_once() {
    for depth in [0.0, -0.0, -1.0, f64::NEG_INFINITY] {
        assert_eq!(ended(begin(pattern(depth))), Some((depth, Wall::Empty)), "{depth}");
    }
    let (d, w) = begin(pattern(f64::NAN)).unwrap();
    assert_eq!(d.to_bits(), f64::NAN.to_bits());
    assert_eq!(w, Wall::Empty);
}

#[test]
fn a_depth_above_zero_lets_the_ray_march() {
    for depth in [5e-324, 0.5, 10.0, f64::INFINITY] {
        assert!(begin(pattern(depth)).is_none(), "{depth}");
    }
}

#[test]
fn the_nearer_border_is_crossed_next() {
    assert_eq!(march((1.0, 1.0), (0.25, 0.5), 0.0).axis(), Axis::X);
    assert_eq!(march((1.0, 1.0), (0.5, 0.25), 0.0).axis(), Axis::Y);
    assert_eq!(march((1.0, 1.0), (0.5, f64::INFINITY), 0.0).axis(), Axis::X);
    assert_eq!(march((1.0, 1.0), (f64::INFINITY, 0.5), 0.0).axis(), Axis::Y);
    assert_eq!(march((1.0, 1.0), (0.0, 1.0), 0.0).axis(), Axis::X);
    assert_eq!(march((1.0, 1.0), (1.0, 0.0), 0.0).axis(), Axis::Y);
}

#[test]
fn equally_near_borders_are_crossed_along_x() {
    assert_eq!(march((1.0, 1.0), (0.5, 0.5), 0.0).axis(), Axis::X);
    assert_eq!(march((1.0, 1.0), (0.0, -0.0), 0.0).axis(), Axis::X);
    assert_eq!(march((1.0, 1.0), (f64::INFINITY, f64::INFINITY), 0.0).axis(), Axis::X);
}

#[test]
fn a_distance_that_is_not_a_number_is_crossed_along_y() {
    assert_eq!(march((1.0, 1.0), (f64::NAN, 0.5), 0.0).axis(), Axis::Y);
    assert_eq!(march((1.0, 1.0), (0.5, f64::NAN), 0.0).axis(), Axis::Y);
}

#[test]
fn the_march_goes_on_over_empty_tiles() {
    let map = walled();
    assert!(march((2.0, 1.0), (1.0, 1.0), 0.5).check(&map, pattern(10.0)).is_none());
    assert!(march((1.0, 2.0), (1.0, 1.0), 10.0).check(&map, pattern(10.0)).is_none());
    assert!(march((-3.0, 8.0), (1.0, 1.0), 2.0).check(&map, pattern(10.0)).is_none());
}

#[test]
fn the_march_ends_at_a_wall_with_the_distance_travelled() {
    let map = walled();
    let r = march((1.0, 1.0), (1.0, 1.0), 2.5).check(&map, pattern(10.0));
    assert_eq!(ended(r), Some((2.5, Wall::Wall)));
    let at_the_limit = march((1.0, 1.0), (1.0, 1.0), 10.0).check(&map, pattern(10.0));
    assert_eq!(ended(at_the_limit), Some((10.0, Wall::Wall)));
}

#[test]
fn the_march_ends_beyond_the_depth_of_field_with_that_depth() {
    let map = walled();
    let r = march((2.0, 2.0), (1.0, 1.0), 10.5).check(&map, pattern(10.0));
    assert_eq!(ended(r), Some((10.0, Wall::Empty)));
}

#[test]
fn running_out_of_depth_is_decided_before_the_wall() {
    let map = walled();
    let r = march((1.0, 1.0), (1.0, 1.0), 3.0).check(&map, pattern(2.0));
    assert_eq!(ended(r), Some((2.0, Wall::Empty)));
}

#[test]
fn a_march_without_walls_ends_only_by_depth() {
    let map = TileMap::try_from_cells(&vec![pattern(0.0); 9], 3, 3).unwrap();
    for tile in [(1.0, 1.0), (0.0, 0.0), (2.0, 2.0), (5.0, -1.0)] {
        for travelled in [0.0, 1.0, 9.99, 10.0, 10.01, 1e9] {
            let r = ended(march(tile, (1.0, 1.0), travelled).check(&map, pattern(10.0)));
            assert!(r == None || r == Some((10.0, Wall::Empty)));
            assert_eq!(r.is_some(), travelled > 10.0);
        }
    }
}
