use shnek::food::{FoodFactory, FoodVariant};
use shnek::snake::{
    HeadSnapshot, Shnek, ShnekHead, ShnekSegment, DEFAULT_SPEED, HEAD_SPACE, SPACING,
};
use shnek::toroidal::{mod_distance, vec3, Vector3, SCALE, SPACE_SIZE};

fn moving_snake(start_length: usize) -> Shnek {
    let mut snake = Shnek::new(start_length);
    snake.set_direction(vec3(SCALE, 0, 0), vec3(0, 0, SCALE));
    snake
}

#[test]
fn head_wraps_around_the_cube() {
    let mut head = ShnekHead::new(99_000, 0, 0);
    head.set_direction(vec3(SCALE, 0, 0), vec3(0, 0, SCALE));
    head.move_forward(2_000);
    assert_eq!(head.position, vec3(1_000, 0, 0));
    assert_eq!(head.get_direction(), vec3(SCALE, 0, 0));
    assert_eq!(head.up, vec3(0, 0, SCALE));
}

#[test]
fn snake_head_wraps_around_the_cube() {
    let mut snake = moving_snake(0);
    snake.set_position(99_000, 0, 0);
    // 200 ms at 10 units per second are 2 units
    snake.move_forward(200);
    assert_eq!(snake.get_position(), vec3(1_000, 0, 0));
    assert_eq!(snake.get_time_moving(), 200);
}

#[test]
fn new_snake_rests_at_the_origin() {
    let snake = Shnek::new(3);
    assert_eq!(snake.get_length(), 0);
    assert_eq!(snake.get_start_length(), 3);
    assert_eq!(snake.get_position(), vec3(0, 0, 0));
    assert_eq!(snake.get_head().direction, vec3(0, 0, 0));
    assert_eq!(snake.get_head().up, vec3(0, 0, SCALE));
    assert_eq!(snake.get_time_moving(), 0);
    assert_eq!(snake.get_time_boosted(), 0);
    assert_eq!(snake.get_score(), -3);
    assert_eq!(snake.get_camera_position(), vec3(0, 0, 2_000));
    assert_eq!(DEFAULT_SPEED, 10_000);
}

#[test]
fn set_position_stores_the_canonical_place() {
    let mut snake = Shnek::new(0);
    snake.set_position(150_000, -1_000, 100_000);
    assert_eq!(snake.get_position(), vec3(50_000, 99_000, 0));
    snake.set_direction(vec3(0, SCALE, 0), vec3(-SCALE, 0, 0));
    assert_eq!(snake.get_camera_position(), vec3(48_000, 99_000, 0));
}

#[test]
fn adding_segments_counts_them() {
    for n in [0_usize, 1, 2, 7, 40] {
        let mut snake = moving_snake(0);
        for _ in 0..n {
            snake.add_segment();
        }
        assert_eq!(snake.get_length(), n);
        assert_eq!(snake.get_segments().len(), n);
    }
    let mut snake = moving_snake(2);
    snake.grow(5);
    assert_eq!(snake.get_length(), 5);
    assert_eq!(snake.get_score(), 3);
}

#[test]
fn new_segments_trail_behind() {
    let mut snake = moving_snake(0);
    snake.set_position(50_000, 50_000, 50_000);
    snake.add_segment();
    snake.add_segment();
    snake.add_segment();
    let segments = snake.get_segments();
    assert_eq!(
        segments[0],
        ShnekSegment::new(
            vec3(50_000 - HEAD_SPACE, 50_000, 50_000),
            vec3(SCALE, 0, 0),
            vec3(0, 0, SCALE)
        )
    );
    assert_eq!(
        segments[1],
        ShnekSegment::new(
            vec3(50_000 - HEAD_SPACE - SPACING, 50_000, 50_000),
            vec3(SCALE, 0, 0),
            vec3(0, 0, SCALE)
        )
    );
    assert_eq!(segments[2].get_position(), vec3(20_000, 50_000, 50_000));
}

#[test]
fn new_segments_are_not_wrapped() {
    let mut snake = moving_snake(0);
    snake.add_segment();
    assert_eq!(
        snake.get_segments()[0],
        ShnekSegment::new(vec3(-10_000, 0, 0), vec3(SCALE, 0, 0), vec3(0, 0, SCALE))
    );
    snake.add_segment();
    assert_eq!(
        snake.get_segments()[1],
        ShnekSegment::new(vec3(-20_000, 0, 0), vec3(SCALE, 0, 0), vec3(0, 0, SCALE))
    );
    snake.add_segment();
    assert_eq!(snake.get_segments()[2].position, vec3(-30_000, 0, 0));
    let mut other = moving_snake(0);
    other.set_position(5_000, 0, 0);
    other.add_segment();
    assert_eq!(other.get_segments()[0].position, vec3(-5_000, 0, 0));
    // the head still finds them where they are in the cube
    assert_eq!(mod_distance(other.get_position(), other.get_segments()[0].position), 10_000);
}

#[test]
fn new_segments_trail_behind_a_body_that_crossed_a_face() {
    let mut snake = moving_snake(0);
    snake.set_position(95_000, 0, 0);
    snake.grow(1);
    // 1.2 s: the head is at 107 = 7, the segment replays the pose at 97
    for _ in 0..12 {
        snake.move_forward(100);
    }
    assert_eq!(snake.get_position(), vec3(7_000, 0, 0));
    assert_eq!(snake.get_segments()[0].position, vec3(97_000, 0, 0));
    snake.add_segment();
    // one spacing further back along the way the body came, not towards
    // the head's coordinates
    assert_eq!(snake.get_segments()[1].position, vec3(87_000, 0, 0));
    assert_eq!(snake.get_segments()[1].forward, vec3(SCALE, 0, 0));
}

#[test]
fn popping_an_empty_snake_does_nothing() {
    let mut snake = moving_snake(0);
    snake.pop_segment();
    assert_eq!(snake.get_length(), 0);
    snake.grow(3);
    let first = snake.get_segments()[0];
    snake.pop_segment();
    assert_eq!(snake.get_length(), 2);
    assert_eq!(snake.get_segments()[0], first);
    snake.shrink(10);
    assert_eq!(snake.get_length(), 0);
}

#[test]
fn segments_replay_the_path_of_the_head() {
    let mut snake = moving_snake(0);
    snake.grow(3);
    for _ in 0..30 {
        snake.move_forward(100);
    }
    assert_eq!(snake.get_time_moving(), 3_000);
    assert_eq!(snake.get_position(), vec3(30_000, 0, 0));
    let segments = snake.get_segments();
    // one second behind the head
    assert_eq!(segments[0].position, vec3(20_000, 0, 0));
    // two seconds behind
    assert_eq!(segments[1].position, vec3(10_000, 0, 0));
    // nothing was recorded three seconds ago: the oldest pose is used
    assert_eq!(segments[2].position, vec3(1_000, 0, 0));
    assert_eq!(segments[0].forward, vec3(SCALE, 0, 0));
    assert_eq!(segments[0].up, vec3(0, 0, SCALE));
}

#[test]
fn segments_bunch_up_while_the_history_is_short() {
    let mut snake = moving_snake(0);
    snake.grow(2);
    snake.move_forward(100);
    snake.move_forward(100);
    let segments = snake.get_segments();
    assert_eq!(segments[0].position, vec3(1_000, 0, 0));
    assert_eq!(segments[1].position, vec3(1_000, 0, 0));
}

#[test]
fn segments_follow_a_turn() {
    let mut snake = moving_snake(0);
    snake.grow(1);
    for _ in 0..10 {
        snake.move_forward(100);
    }
    snake.set_direction(vec3(0, SCALE, 0), vec3(0, 0, SCALE));
    for _ in 0..5 {
        snake.move_forward(100);
    }
    assert_eq!(snake.get_position(), vec3(10_000, 5_000, 0));
    // the pose of half a second into the run's first leg
    let segment = snake.get_segments()[0];
    assert_eq!(segment.position, vec3(5_000, 0, 0));
    assert_eq!(segment.forward, vec3(SCALE, 0, 0));
    for _ in 0..10 {
        snake.move_forward(100);
    }
    let segment = snake.get_segments()[0];
    assert_eq!(segment.position, vec3(10_000, 5_000, 0));
    assert_eq!(segment.forward, vec3(0, SCALE, 0));
}

#[test]
fn no_tail_collision_during_spawn_immunity() {
    let mut snake = Shnek::new(0);
    // a resting head has no direction: every segment lands on the head
    snake.grow(4);
    for segment in snake.get_segments().iter() {
        assert_eq!(mod_distance(snake.get_position(), segment.position), 0);
    }
    assert!(!snake.check_tail_collision());
    snake.move_forward(1_999);
    assert!(!snake.check_tail_collision());
    snake.move_forward(1);
    assert!(snake.check_tail_collision());
}

#[test]
fn tail_collision_needs_a_close_segment() {
    let mut snake = moving_snake(0);
    snake.grow(3);
    for _ in 0..40 {
        snake.move_forward(100);
    }
    // the nearest segment is ten units behind
    assert!(!snake.check_tail_collision());
    let empty = {
        let mut s = moving_snake(0);
        s.move_forward(5_000);
        s
    };
    assert!(!empty.check_tail_collision());
}

#[test]
fn tail_collision_looks_at_every_segment() {
    // a single segment that sits on the head is enough
    let mut snake = Shnek::new(0);
    snake.grow(1);
    snake.move_forward(2_500);
    assert_eq!(snake.get_length(), 1);
    assert!(snake.check_tail_collision());
}

#[test]
fn boosting_moves_twice_as_far_and_runs_up_debt() {
    let mut snake = moving_snake(0);
    snake.check_boost_and_move(100, true);
    assert_eq!(snake.get_time_moving(), 200);
    assert_eq!(snake.get_time_boosted(), 100);
    assert_eq!(snake.get_position(), vec3(2_000, 0, 0));
    snake.check_boost_and_move(100, false);
    assert_eq!(snake.get_time_moving(), 300);
    // the debt does not decay
    assert_eq!(snake.get_time_boosted(), 100);
    assert_eq!(snake.get_position(), vec3(3_000, 0, 0));
}

#[test]
fn boost_debt_costs_one_segment() {
    let mut snake = moving_snake(1);
    let mut factory = FoodFactory::new();
    snake.grow(3);
    snake.check_boost_and_move(3_500, true);
    assert_eq!(snake.get_time_boosted(), 3_500);
    let tail = snake.get_segments()[2];
    let over = snake.check_boost_time(&mut factory, 1);
    assert!(!over);
    assert_eq!(snake.get_length(), 2);
    assert_eq!(snake.get_time_boosted(), 500);
    let poop = factory.foods(FoodVariant::Poop);
    assert_eq!(poop.len(), 1);
    assert_eq!(poop[0].position, tail.position);
    assert_eq!(poop[0].size, 3_000);
    assert_eq!(poop[0].quality, 1);
    assert_eq!(poop[0].variant, FoodVariant::Poop);
    assert_eq!(poop[0].time_created, 7_000);
    assert_eq!(poop[0].id, 1);
    // the rest of the debt is below the limit
    assert!(!snake.check_boost_time(&mut factory, 1));
    assert_eq!(snake.get_length(), 2);
    assert_eq!(factory.foods(FoodVariant::Poop).len(), 1);
}

#[test]
fn boost_debt_can_be_collected_again() {
    let mut snake = moving_snake(0);
    let mut factory = FoodFactory::new();
    snake.grow(3);
    snake.check_boost_and_move(7_000, true);
    assert!(!snake.check_boost_time(&mut factory, 0));
    assert!(!snake.check_boost_time(&mut factory, 0));
    assert_eq!(snake.get_length(), 1);
    assert_eq!(snake.get_time_boosted(), 1_000);
    assert!(!snake.check_boost_time(&mut factory, 0));
    assert_eq!(snake.get_length(), 1);
}

#[test]
fn boost_debt_at_minimum_length_ends_the_run() {
    let mut snake = moving_snake(2);
    let mut factory = FoodFactory::new();
    snake.grow(2);
    snake.check_boost_and_move(3_001, true);
    assert!(snake.check_boost_time(&mut factory, 2));
    assert_eq!(snake.get_length(), 2);
    assert_eq!(snake.get_time_boosted(), 3_001);
    assert_eq!(factory.foods(FoodVariant::Poop).len(), 0);
    // exactly at the limit nothing is due
    let mut calm = moving_snake(2);
    calm.grow(5);
    calm.check_boost_and_move(3_000, true);
    assert!(!calm.check_boost_time(&mut factory, 2));
    assert_eq!(calm.get_length(), 5);
}

#[test]
fn reset_starts_over() {
    let mut snake = moving_snake(3);
    snake.set_direction(vec3(0, SCALE, 0), vec3(SCALE, 0, 0));
    snake.grow(4);
    snake.check_boost_and_move(500, true);
    snake.reset();
    assert_eq!(snake.get_length(), 0);
    assert_eq!(snake.get_time_moving(), 0);
    assert_eq!(snake.get_time_boosted(), 0);
    assert_eq!(snake.get_position(), vec3(0, 0, 0));
    assert_eq!(snake.get_head().direction, vec3(SCALE, 0, 0));
    assert_eq!(snake.get_head().up, vec3(0, 0, SCALE));
    assert_eq!(snake.get_start_length(), 3);
    // the history is gone: a new segment replays the first new pose
    snake.grow(1);
    snake.move_forward(100);
    assert_eq!(snake.get_segments()[0].position, vec3(1_000, 0, 0));
}

#[test]
fn score_is_length_minus_start_length() {
    let mut snake = moving_snake(3);
    assert_eq!(snake.get_score(), -3);
    snake.grow(3);
    assert_eq!(snake.get_score(), 0);
    snake.grow(9);
    assert_eq!(snake.get_score(), 9);
}

#[test]
fn plain_records_keep_what_they_are_given() {
    let mut segment = ShnekSegment::new(vec3(1, 2, 3), vec3(4, 5, 6), vec3(7, 8, 9));
    segment.set_position(vec3(10, 11, 12));
    segment.set_direction(vec3(0, SCALE, 0), vec3(0, 0, SCALE));
    assert_eq!(segment.get_position(), vec3(10, 11, 12));
    assert_eq!(segment.forward, vec3(0, SCALE, 0));
    assert_eq!(segment.up, vec3(0, 0, SCALE));
    let mut head = ShnekHead::new(1, 2, 3);
    head.set_position(-5, 200_000, 7);
    assert_eq!(head.position, Vector3 { x: -5, y: 200_000, z: 7 });
    let snapshot = HeadSnapshot { position: vec3(1, 2, 3), direction: vec3(0, 0, 0), up: vec3(0, 0, SCALE), time: 5 };
    assert_eq!(snapshot.time, 5);
    assert_eq!(SPACE_SIZE, 100_000);
}
