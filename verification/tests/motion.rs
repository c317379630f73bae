use particle_arena::arena::{Arena, ConfigError, MAX_EXTENT};
use particle_arena::geometry::Point;
use particle_arena::motion::{
    compute_candidate, compute_travel, find_first_strike, get_new_position, Direction, Velocity,
    DIRECTION_UNIT, MAX_REACH,
};

fn arena(width: i32, height: i32) -> Arena {
    match Arena::new(width, height) {
        Ok(made) => made,
        Err(e) => panic!("no arena: {:?}", e),
    }
}

fn velocity(cos: i32, sin: i32, distance: u32) -> Velocity {
    Velocity { direction: Direction { cos, sin }, distance }
}

#[test]
fn arena_has_its_four_walls() {
    let a = arena(20, 100);
    assert_eq!(a.width, 20);
    assert_eq!(a.height, 100);
    assert_eq!((a.left.0, a.left.1), ((0, 0), (0, 100)));
    assert_eq!((a.right.0, a.right.1), ((20, 0), (20, 100)));
    assert_eq!((a.top.0, a.top.1), ((0, 0), (20, 0)));
    assert_eq!((a.bottom.0, a.bottom.1), ((0, 100), (20, 100)));
}

#[test]
fn arena_without_extent_is_refused() {
    assert_eq!(Arena::new(0, 100).err(), Some(ConfigError::EmptyArena));
    assert_eq!(Arena::new(20, 0).err(), Some(ConfigError::EmptyArena));
    assert_eq!(Arena::new(0, 0).err(), Some(ConfigError::EmptyArena));
    assert_eq!(Arena::new(-3, 100).err(), Some(ConfigError::EmptyArena));
    assert_eq!(Arena::new(-3, MAX_EXTENT + 1).err(), Some(ConfigError::EmptyArena));
}

#[test]
fn configuration_errors_say_what_is_wrong() {
    assert!(ConfigError::EmptyArena.message().contains("no extent"));
    assert!(ConfigError::ArenaTooLarge.message().contains("too large"));
    assert_ne!(ConfigError::EmptyArena.message(), ConfigError::ArenaTooLarge.message());
}

#[test]
fn arena_too_large_is_refused() {
    assert_eq!(Arena::new(MAX_EXTENT + 1, 100).err(), Some(ConfigError::ArenaTooLarge));
    assert_eq!(Arena::new(20, i32::MAX).err(), Some(ConfigError::ArenaTooLarge));
    assert!(Arena::new(MAX_EXTENT, MAX_EXTENT).is_ok());
    assert!(Arena::new(1, 1).is_ok());
}

#[test]
fn arena_contains_its_walls() {
    let a = arena(20, 100);
    assert!(a.is_inside((0, 0)));
    assert!(a.is_inside((20, 100)));
    assert!(a.is_inside((7, 55)));
    assert!(!a.is_inside((21, 55)));
    assert!(!a.is_inside((-1, 55)));
    assert!(!a.is_inside((7, 101)));
    assert!(!a.is_inside((7, -1)));
}

#[test]
fn validity_of_headings_and_velocities() {
    assert!(Direction { cos: DIRECTION_UNIT, sin: -DIRECTION_UNIT }.is_valid());
    assert!(Direction { cos: 0, sin: 0 }.is_valid());
    assert!(!Direction { cos: DIRECTION_UNIT + 1, sin: 0 }.is_valid());
    assert!(!Direction { cos: 0, sin: -DIRECTION_UNIT - 1 }.is_valid());
    assert!(velocity(600_000, 800_000, MAX_REACH as u32).is_valid());
    assert!(!velocity(600_000, 800_000, MAX_REACH as u32 + 1).is_valid());
    assert!(!velocity(600_000, 1_800_000, 5).is_valid());
}

#[test]
fn travel_is_rounded_half_away_from_zero() {
    assert_eq!(compute_travel(3, 500_000), 2);
    assert_eq!(compute_travel(3, -500_000), -2);
    assert_eq!(compute_travel(1, 499_999), 0);
    assert_eq!(compute_travel(1, -499_999), 0);
    assert_eq!(compute_travel(10, 707_107), 7);
    assert_eq!(compute_travel(7, -333_333), -2);
    assert_eq!(compute_travel(0, 1_000_000), 0);
    assert_eq!(compute_travel(12, 0), 0);
    assert_eq!(compute_travel(1_000_000_000, 1_000_000), 1_000_000_000);
    assert_eq!(compute_travel(1_000_000_000, -1_000_000), -1_000_000_000);
}

#[test]
fn candidate_is_start_plus_travel() {
    assert_eq!(compute_candidate((95, 97), velocity(600_000, 800_000, 20)), (107, 113));
    assert_eq!(compute_candidate((0, 0), velocity(-600_000, -800_000, 5)), (-3, -4));
    assert_eq!(
        compute_candidate((-MAX_REACH, MAX_REACH), velocity(-1_000_000, 1_000_000, 1_000_000_000)),
        (-2_000_000_000, 2_000_000_000)
    );
}

#[test]
fn reflection_off_a_vertical_wall_flips_the_horizontal_component() {
    let d = Direction { cos: 600_000, sin: -800_000 };
    let mirrored = d.reflect(true);
    assert_eq!(mirrored, Direction { cos: -600_000, sin: -800_000 });
    assert_eq!(mirrored.reflect(true), d);
}

#[test]
fn reflection_off_a_horizontal_wall_flips_the_vertical_component() {
    let d = Direction { cos: 600_000, sin: -800_000 };
    let mirrored = d.reflect(false);
    assert_eq!(mirrored, Direction { cos: 600_000, sin: 800_000 });
    assert_eq!(mirrored.reflect(false), d);
}

#[test]
fn free_path_ends_at_the_candidate() {
    let a = arena(200_000, 1_000_000);
    let v = velocity(707_107, 707_107, 9_999);
    let moved = get_new_position((100_000, 500_000), v, &a);
    assert_eq!(moved.0, (107_070, 507_070));
    assert_eq!(moved.1, v);
}

#[test]
fn free_path_may_end_on_the_near_walls() {
    let a = arena(10, 10);
    let v = velocity(-1_000_000, 0, 5);
    let moved = get_new_position((5, 0), v, &a);
    assert_eq!(moved.0, (0, 0));
    assert_eq!(moved.1, v);
}

#[test]
fn no_distance_no_move() {
    let a = arena(10, 10);
    let points: Vec<Point> = vec![(5, 5), (0, 0), (10, 10), (10, 0), (0, 7), (15, 5), (-4, 12)];
    for p in points.iter() {
        let v = velocity(600_000, -800_000, 0);
        let moved = get_new_position(*p, v, &a);
        assert_eq!(moved.0, *p);
        assert_eq!(moved.1, v);
    }
}

#[test]
fn round_trip_off_the_right_wall() {
    let a = arena(20, 100);
    let moved = get_new_position((15, 50), velocity(1_000_000, 0, 10), &a);
    assert_eq!(moved.0, (15, 50));
    assert_eq!(moved.1, velocity(-1_000_000, 0, 10));
}

#[test]
fn round_trip_off_the_left_wall() {
    let a = arena(20, 100);
    let moved = get_new_position((7, 100), velocity(-1_000_000, 0, 14), &a);
    assert_eq!(moved.0, (7, 100));
    assert_eq!(moved.1, velocity(1_000_000, 0, 14));
}

#[test]
fn round_trip_off_the_bottom_wall() {
    let a = arena(20, 100);
    let moved = get_new_position((0, 60), velocity(0, 1_000_000, 80), &a);
    assert_eq!(moved.0, (0, 60));
    assert_eq!(moved.1, velocity(0, -1_000_000, 80));
}

#[test]
fn round_trip_off_the_top_wall() {
    let a = arena(20, 100);
    let moved = get_new_position((20, 1), velocity(0, -1_000_000, 2), &a);
    assert_eq!(moved.0, (20, 1));
    assert_eq!(moved.1, velocity(0, 1_000_000, 2));
}

#[test]
fn round_trip_from_the_opposite_wall() {
    let a = arena(20, 100);
    let across_x = get_new_position((20, 40), velocity(-1_000_000, 0, 40), &a);
    assert_eq!(across_x.0, (20, 40));
    assert_eq!(across_x.1, velocity(-1_000_000, 0, 40));
    let across_y = get_new_position((5, 100), velocity(0, -1_000_000, 200), &a);
    assert_eq!(across_y.0, (5, 100));
    assert_eq!(across_y.1, velocity(0, -1_000_000, 200));
    let from_left = get_new_position((0, 40), velocity(1_000_000, 0, 40), &a);
    assert_eq!(from_left.0, (0, 40));
    assert_eq!(from_left.1, velocity(-1_000_000, 0, 40));
}

#[test]
fn candidate_on_a_far_wall_is_a_contact() {
    let a = arena(10, 10);
    let moved = get_new_position((7, 5), velocity(1_000_000, 0, 3), &a);
    assert_eq!(moved.0, (10, 5));
    assert_eq!(moved.1.direction, Direction { cos: -1_000_000, sin: 0 });
    let near = get_new_position((3, 5), velocity(-1_000_000, 0, 3), &a);
    assert_eq!(near.0, (0, 5));
    assert_eq!(near.1.direction, Direction { cos: -1_000_000, sin: 0 });
}

#[test]
fn bounce_keeps_the_distance_of_a_full_tick() {
    let a = arena(200_000, 1_000_000);
    let moved = get_new_position((195_000, 500_000), velocity(707_107, 707_107, 10_000), &a);
    assert_eq!(moved.0, (197_929, 507_071));
    assert_eq!(moved.1, velocity(-707_107, 707_107, 10_000));
}

#[test]
fn two_walls_in_one_tick() {
    let a = arena(100, 100);
    let start: Point = (95, 97);
    let v = velocity(600_000, 800_000, 20);
    assert_eq!(find_first_strike(&a, start, (107, 113)), Some(((97, 100), false)));
    let moved = get_new_position(start, v, &a);
    assert_eq!(moved.0, (93, 87));
    assert_eq!(moved.1, velocity(-600_000, -800_000, 20));
}

#[test]
fn at_equal_distances_the_vertical_wall_counts() {
    let a = arena(10, 10);
    assert_eq!(find_first_strike(&a, (8, 8), (12, 12)), Some(((10, 10), true)));
    let moved = get_new_position((8, 8), velocity(1_000_000, 1_000_000, 4), &a);
    assert_eq!(moved.0, (9, 9));
    assert_eq!(moved.1, velocity(-1_000_000, -1_000_000, 4));
}

#[test]
fn strike_looks_only_at_walls_the_candidate_lies_beyond() {
    let a = arena(10, 10);
    assert_eq!(find_first_strike(&a, (5, 5), (9, 9)), None);
    assert_eq!(find_first_strike(&a, (15, 5), (7, 5)), None);
    assert_eq!(find_first_strike(&a, (5, 5), (10, 5)), Some(((10, 5), true)));
    assert_eq!(find_first_strike(&a, (5, 5), (5, -1)), Some(((5, 0), false)));
    assert_eq!(find_first_strike(&a, (5, 5), (-5, 5)), Some(((0, 5), true)));
    assert_eq!(find_first_strike(&a, (5, 5), (5, 10)), Some(((5, 10), false)));
}

#[test]
fn landing_on_a_wall_turns_the_heading() {
    let a = arena(10, 10);
    let moved = get_new_position((7, 5), velocity(1_000_000, 0, 3), &a);
    assert_eq!(moved.0, (10, 5));
    assert_eq!(moved.1, velocity(-1_000_000, 0, 3));
}

#[test]
fn many_bounces_in_one_tick() {
    let a = arena(10, 10);
    let there_and_back = get_new_position((5, 5), velocity(1_000_000, 0, 100), &a);
    assert_eq!(there_and_back.0, (5, 5));
    assert_eq!(there_and_back.1, velocity(1_000_000, 0, 100));
    let odd = get_new_position((5, 5), velocity(-1_000_000, 0, 37), &a);
    assert_eq!(odd.0, (8, 5));
    assert_eq!(odd.1, velocity(-1_000_000, 0, 37));
    let across = get_new_position((10, 5), velocity(-1_000_000, 0, 20), &a);
    assert_eq!(across.0, (10, 5));
    assert_eq!(across.1, velocity(-1_000_000, 0, 20));
    let narrow = arena(7, 3);
    let zigzag = get_new_position((2, 1), velocity(600_000, -800_000, 1_000), &narrow);
    assert_eq!(zigzag.0, (3, 1));
    assert_eq!(zigzag.1, velocity(-600_000, -800_000, 1_000));
}

#[test]
fn longest_tick_in_the_smallest_arena_ends() {
    let a = arena(1_000, 1_000);
    let moved = get_new_position((500, 500), velocity(1_000_000, 0, 1_000_000), &a);
    assert_eq!(moved.0, (500, 500));
    assert_eq!(moved.1, velocity(1_000_000, 0, 1_000_000));
}

#[test]
fn position_outside_the_arena_moves_by_the_same_arithmetic() {
    let a = arena(10, 10);
    let away = get_new_position((15, 5), velocity(1_000_000, 0, 3), &a);
    assert_eq!(away.0, (18, 5));
    assert_eq!(away.1, velocity(1_000_000, 0, 3));
    let back_in = get_new_position((15, 5), velocity(-1_000_000, 0, 8), &a);
    assert_eq!(back_in.0, (7, 5));
    assert_eq!(back_in.1, velocity(-1_000_000, 0, 8));
    let before = get_new_position((-4, -4), velocity(1_000_000, 1_000_000, 2), &a);
    assert_eq!(before.0, (-2, -2));
    assert_eq!(before.1, velocity(1_000_000, 1_000_000, 2));
}

#[test]
fn particle_never_leaves_the_arena() {
    let a = arena(977, 613);
    let mut seed: u64 = 0x2545_F491_4F6C_DD1D;
    let mut round: u32 = 0;
    while round < 3_000 {
        seed = seed.wrapping_mul(6_364_136_223_846_793_005).wrapping_add(1_442_695_040_888_963_407);
        let x: i32 = ((seed >> 33) % 978) as i32;
        seed = seed.wrapping_mul(6_364_136_223_846_793_005).wrapping_add(1_442_695_040_888_963_407);
        let y: i32 = ((seed >> 33) % 614) as i32;
        seed = seed.wrapping_mul(6_364_136_223_846_793_005).wrapping_add(1_442_695_040_888_963_407);
        let cos: i32 = ((seed >> 33) % 2_000_001) as i32 - 1_000_000;
        seed = seed.wrapping_mul(6_364_136_223_846_793_005).wrapping_add(1_442_695_040_888_963_407);
        let sin: i32 = ((seed >> 33) % 2_000_001) as i32 - 1_000_000;
        seed = seed.wrapping_mul(6_364_136_223_846_793_005).wrapping_add(1_442_695_040_888_963_407);
        let distance: u32 = ((seed >> 33) % 5_000) as u32;
        let v = velocity(cos, sin, distance);
        let moved = get_new_position((x, y), v, &a);
        assert!(a.is_inside(moved.0), "{:?} with {:?} went to {:?}", (x, y), v, moved.0);
        assert_eq!(moved.1.distance, distance);
        assert_eq!(moved.1.direction.cos.abs(), cos.abs());
        assert_eq!(moved.1.direction.sin.abs(), sin.abs());
        round += 1;
    }
}
