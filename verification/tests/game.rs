use shnek::food::{FoodFactory, FoodVariant, FAR_AWAY};
use shnek::game::{restart, running, GameState, TickOutcome};
use shnek::score::Score;
use shnek::snake::Shnek;
use shnek::toroidal::{vec3, SCALE};

#[test]
fn the_pause_key_pauses_and_resumes() {
    assert_eq!(GameState::MainMenu.toggled(), GameState::MainMenu);
    assert_eq!(GameState::Running.toggled(), GameState::Paused);
    assert_eq!(GameState::Paused.toggled(), GameState::Running);
    assert_eq!(GameState::GameOver.toggled(), GameState::GameOver);
    assert_eq!(GameState::Score.toggled(), GameState::GameOver);
}

#[test]
fn nothing_moves_unless_the_game_is_running() {
    for state in [GameState::MainMenu, GameState::Paused, GameState::GameOver, GameState::Score] {
        let mut game_state = state;
        let mut player = Shnek::new(3);
        let mut factory = FoodFactory::new();
        let mut food_distance = 123;
        let outcome = running(
            &mut game_state,
            &mut player,
            &mut factory,
            vec3(SCALE, 0, 0),
            vec3(0, 0, SCALE),
            16,
            true,
            &mut food_distance,
        );
        assert_eq!(outcome, TickOutcome { collided: false, eaten: false });
        assert_eq!(game_state, state);
        assert_eq!(player.get_time_moving(), 0);
        assert_eq!(player.get_position(), vec3(0, 0, 0));
        assert_eq!(player.get_head().direction, vec3(0, 0, 0));
        assert_eq!(food_distance, 123);
        assert_eq!(factory.food_count(), 1);
    }
}

#[test]
fn a_tick_moves_once_and_looks_for_food() {
    let mut game_state = GameState::Running;
    let mut player = Shnek::new(0);
    let mut factory = FoodFactory::new();
    factory.remove_food_model(0, FoodVariant::Normal);
    factory.new_custom(vec3(50_000, 0, 0), 1_000, 1, FoodVariant::Normal, vec3(0, SCALE, 0), vec3(0, 0, SCALE), 0);
    let mut food_distance = FAR_AWAY;
    let outcome = running(
        &mut game_state,
        &mut player,
        &mut factory,
        vec3(SCALE, 0, 0),
        vec3(0, 0, SCALE),
        100,
        false,
        &mut food_distance,
    );
    assert_eq!(outcome, TickOutcome { collided: false, eaten: false });
    assert_eq!(game_state, GameState::Running);
    assert_eq!(player.get_time_moving(), 100);
    assert_eq!(player.get_position(), vec3(1_000, 0, 0));
    assert_eq!(food_distance, 49_000);
    let outcome = running(
        &mut game_state,
        &mut player,
        &mut factory,
        vec3(SCALE, 0, 0),
        vec3(0, 0, SCALE),
        100,
        true,
        &mut food_distance,
    );
    assert_eq!(outcome, TickOutcome { collided: false, eaten: false });
    assert_eq!(player.get_time_moving(), 300);
    assert_eq!(player.get_time_boosted(), 100);
    assert_eq!(player.get_position(), vec3(3_000, 0, 0));
    assert_eq!(food_distance, 47_000);
}

#[test]
fn a_tick_records_one_pose_of_the_head() {
    let mut game_state = GameState::Running;
    let mut player = Shnek::new(0);
    let mut factory = FoodFactory::new();
    factory.remove_food_model(0, FoodVariant::Normal);
    let mut food_distance = FAR_AWAY;
    player.grow(2);
    // ten ticks of 100 ms leave ten poses, 100 ms apart
    for _ in 0..10 {
        running(
            &mut game_state,
            &mut player,
            &mut factory,
            vec3(SCALE, 0, 0),
            vec3(0, 0, SCALE),
            100,
            false,
            &mut food_distance,
        );
    }
    assert_eq!(player.get_time_moving(), 1_000);
    assert_eq!(player.get_position(), vec3(10_000, 0, 0));
    // nothing is old enough yet: both segments replay the oldest pose,
    // which is that of the first tick
    assert_eq!(player.get_segments()[0].position, vec3(1_000, 0, 0));
    assert_eq!(player.get_segments()[1].position, vec3(1_000, 0, 0));
    running(
        &mut game_state,
        &mut player,
        &mut factory,
        vec3(SCALE, 0, 0),
        vec3(0, 0, SCALE),
        100,
        false,
        &mut food_distance,
    );
    // one second behind the head, one tick further
    assert_eq!(player.get_segments()[0].position, vec3(1_000, 0, 0));
    running(
        &mut game_state,
        &mut player,
        &mut factory,
        vec3(SCALE, 0, 0),
        vec3(0, 0, SCALE),
        100,
        false,
        &mut food_distance,
    );
    assert_eq!(player.get_position(), vec3(12_000, 0, 0));
    assert_eq!(player.get_segments()[0].position, vec3(2_000, 0, 0));
    assert_eq!(game_state, GameState::Running);
}

#[test]
fn a_tick_feeds_the_snake() {
    let mut game_state = GameState::Running;
    let mut player = Shnek::new(0);
    let mut factory = FoodFactory::new();
    factory.remove_food_model(0, FoodVariant::Normal);
    factory.new_custom(vec3(10_000, 0, 0), 1_000, 2, FoodVariant::Normal, vec3(0, SCALE, 0), vec3(0, 0, SCALE), 0);
    let mut food_distance = FAR_AWAY;
    let outcome = running(
        &mut game_state,
        &mut player,
        &mut factory,
        vec3(SCALE, 0, 0),
        vec3(0, 0, SCALE),
        100,
        false,
        &mut food_distance,
    );
    assert_eq!(outcome, TickOutcome { collided: false, eaten: true });
    assert_eq!(food_distance, 9_000);
    assert_eq!(player.get_length(), 2);
    assert_eq!(game_state, GameState::Running);
    assert_eq!(factory.food_count(), 1);
}

#[test]
fn running_into_the_tail_ends_the_run() {
    let mut game_state = GameState::Running;
    let mut player = Shnek::new(0);
    let mut factory = FoodFactory::new();
    let mut food_distance = FAR_AWAY;
    // a snake that does not move keeps its segment on its head
    player.grow(1);
    let outcome = running(
        &mut game_state,
        &mut player,
        &mut factory,
        vec3(0, 0, 0),
        vec3(0, 0, SCALE),
        1_999,
        false,
        &mut food_distance,
    );
    assert!(!outcome.collided);
    assert_eq!(game_state, GameState::Running);
    let outcome = running(
        &mut game_state,
        &mut player,
        &mut factory,
        vec3(0, 0, 0),
        vec3(0, 0, SCALE),
        1,
        false,
        &mut food_distance,
    );
    assert!(outcome.collided);
    assert_eq!(game_state, GameState::GameOver);
}

#[test]
fn unpaid_boost_debt_ends_the_run() {
    let mut game_state = GameState::Running;
    let mut player = Shnek::new(2);
    let mut factory = FoodFactory::new();
    let mut food_distance = FAR_AWAY;
    factory.remove_food_model(0, FoodVariant::Normal);
    player.grow(2);
    for _ in 0..30 {
        running(
            &mut game_state,
            &mut player,
            &mut factory,
            vec3(0, SCALE, 0),
            vec3(0, 0, SCALE),
            100,
            false,
            &mut food_distance,
        );
    }
    assert_eq!(game_state, GameState::Running);
    let outcome = running(
        &mut game_state,
        &mut player,
        &mut factory,
        vec3(0, SCALE, 0),
        vec3(0, 0, SCALE),
        3_001,
        true,
        &mut food_distance,
    );
    assert!(!outcome.collided);
    assert_eq!(game_state, GameState::GameOver);
    assert_eq!(player.get_length(), 2);
    assert_eq!(player.get_time_boosted(), 3_001);
    assert_eq!(player.get_time_moving(), 9_002);
}

#[test]
fn restart_gives_a_fresh_run() {
    let mut game_state = GameState::GameOver;
    let mut player = Shnek::new(3);
    let mut factory = FoodFactory::new();
    let mut score = Score::new();
    player.set_direction(vec3(0, SCALE, 0), vec3(0, 0, SCALE));
    player.grow(9);
    player.check_boost_and_move(700, true);
    factory.new_custom(vec3(1, 2, 3), 1_000, 1, FoodVariant::Bad, vec3(0, SCALE, 0), vec3(0, 0, SCALE), 0);
    assert!(score.write(6).is_some());
    restart(&mut game_state, &mut player, &mut factory, &mut score);
    assert_eq!(game_state, GameState::Running);
    assert_eq!(player.get_length(), 3);
    assert_eq!(player.get_score(), 0);
    assert_eq!(player.get_time_moving(), 0);
    assert_eq!(player.get_time_boosted(), 0);
    assert_eq!(player.get_position(), vec3(0, 0, 0));
    assert_eq!(player.get_head().direction, vec3(SCALE, 0, 0));
    assert_eq!(player.get_segments()[0].position, vec3(-10_000, 0, 0));
    assert_eq!(player.get_segments()[2].position, vec3(-30_000, 0, 0));
    assert_eq!(factory.food_count(), 1);
    assert_eq!(factory.foods(FoodVariant::Normal)[0].id, 0);
    assert_eq!(factory.foods(FoodVariant::Bad).len(), 0);
    assert_eq!(factory.max_food(), 1);
    assert!(score.write(6).is_some());
}
