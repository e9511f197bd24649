use breakout_core::game_state::Ball;
use breakout_core::game_state::BrickVariety;
use breakout_core::game_state::GameState;
use breakout_core::game_state::KeyboardState;
use breakout_core::game_state::TimeState;
use breakout_core::geometry::Circle;
use breakout_core::geometry::FPoint;
use breakout_core::geometry::FVector2d;

fn idle() -> KeyboardState {
    KeyboardState { move_left: false, move_right: false, fire: false }
}

fn fire() -> KeyboardState {
    KeyboardState { move_left: false, move_right: false, fire: true }
}

fn ball_at(x: i64, y: i64, vx: i64, vy: i64) -> Ball {
    Ball {
        position: Circle::new(FPoint::new(x, y), 4_000),
        movement_vector: FVector2d::new(vx, vy),
    }
}

#[test]
fn initial_state_is_stopped_with_three_lives() {
    let game = GameState::make_initial();
    assert_eq!(game.time_state, TimeState::Stopped);
    assert_eq!(game.lives_left, 3);
    assert_eq!(game.balls.len(), 1);
    assert_eq!(game.balls[0].position.center, FPoint::new(70_000, 44_000));
    assert_eq!(game.balls[0].position.radius, 4_000);
    assert_eq!(game.balls[0].movement_vector, FVector2d::new(-15, 120));
    assert_eq!(game.bricks.len(), 3);
    assert!(matches!(game.bricks[0].variety, BrickVariety::Standard { color: 1 }));
    assert_eq!((game.field.x1, game.field.y1, game.field.x2, game.field.y2), (
        10_000,
        10_000,
        410_000,
        460_000,
    ));
    assert!(game.is_well_formed());
}

#[test]
fn fire_starts_simulation() {
    let mut game = GameState::make_initial();
    game.tick(0, fire());
    assert_eq!(game.time_state, TimeState::Running { last_update_time_ms: 0 });
    assert_eq!(game.lives_left, 3);
    assert_eq!(game.balls.len(), 1);
    assert_eq!(game.balls[0].position.center, FPoint::new(70_000, 44_000));
    assert_eq!(game.balls[0].movement_vector, FVector2d::new(-15, 120));
}

#[test]
fn tick_without_fire_stays_stopped() {
    let mut game = GameState::make_initial();
    game.tick(5, idle());
    assert_eq!(game.time_state, TimeState::Stopped);
    assert_eq!(game.balls[0].position.center, FPoint::new(70_000, 44_000));
}

#[test]
fn free_flight_advances_by_velocity_times_elapsed_time() {
    let mut game = GameState::make_initial();
    game.tick(0, fire());
    game.tick(100, idle());
    assert_eq!(game.time_state, TimeState::Running { last_update_time_ms: 100 });
    assert_eq!(game.balls[0].position.center, FPoint::new(68_500, 56_000));
    assert_eq!(game.balls[0].movement_vector, FVector2d::new(-15, 120));
    assert_eq!(game.bricks.len(), 3);
    assert_eq!(game.lives_left, 3);
}

#[test]
fn paddle_follows_intent_and_right_wins() {
    let mut game = GameState::make_initial();
    game.tick(
        0,
        KeyboardState { move_left: true, move_right: true, fire: false },
    );
    assert_eq!(game.paddle.vector, FVector2d::new(200, 0));
    game.tick(0, KeyboardState { move_left: true, move_right: false, fire: false });
    assert_eq!(game.paddle.vector, FVector2d::new(-200, 0));
    game.tick(0, idle());
    assert_eq!(game.paddle.vector, FVector2d::new(0, 0));
}

#[test]
fn paddle_moves_and_is_clamped_to_field() {
    let mut game = GameState::make_initial();
    game.tick(0, fire());
    game.tick(100, KeyboardState { move_left: false, move_right: true, fire: false });
    assert_eq!(game.paddle.position.x1, 70_000);
    assert_eq!(game.paddle.position.x2, 120_000);
    let mut t: i64 = 100;
    while t < 2_000 {
        t += 100;
        game.tick(t, KeyboardState { move_left: false, move_right: true, fire: false });
    }
    assert_eq!(game.paddle.position.x2, 410_000);
    assert_eq!(game.paddle.position.x1, 360_000);
}

#[test]
fn brick_collision_removes_brick_and_reflects_ball() {
    let mut game = GameState::make_initial();
    game.balls = vec![ball_at(30_000, 388_000, 0, 100)];
    game.time_state = TimeState::Running { last_update_time_ms: 0 };
    game.tick(100, idle());
    assert_eq!(game.balls[0].position.center, FPoint::new(30_000, 398_000));
    assert_eq!(game.balls[0].movement_vector, FVector2d::new(0, -100));
    assert_eq!(game.bricks.len(), 2);
    assert_eq!(game.bricks[0].position.y1, 420_000);
    assert!(matches!(game.bricks[0].variety, BrickVariety::Standard { color: 3 }));
    assert!(matches!(game.bricks[1].variety, BrickVariety::Standard { color: 2 }));
}

#[test]
fn wall_collision_reflects_ball() {
    let mut game = GameState::make_initial();
    game.balls = vec![ball_at(23_000, 200_000, -100, 0)];
    game.bricks = Vec::new();
    game.time_state = TimeState::Running { last_update_time_ms: 0 };
    game.tick(100, idle());
    assert_eq!(game.balls[0].position.center, FPoint::new(13_000, 200_000));
    assert_eq!(game.balls[0].movement_vector, FVector2d::new(100, 0));
}

#[test]
fn paddle_bounce_is_angled_off_center() {
    let mut game = GameState::make_initial();
    game.balls = vec![ball_at(90_000, 45_000, 0, -100)];
    game.time_state = TimeState::Running { last_update_time_ms: 0 };
    game.tick(10, idle());
    assert_eq!(game.balls[0].position.center, FPoint::new(90_000, 44_000));
    assert_eq!(game.balls[0].movement_vector, FVector2d::new(46, 90));
}

#[test]
fn losing_sole_ball_costs_a_life_and_stops() {
    let mut game = GameState::make_initial();
    game.balls = vec![ball_at(200_000, 5_000, 0, -100)];
    game.lives_left = 2;
    game.time_state = TimeState::Running { last_update_time_ms: 0 };
    game.tick(100, idle());
    assert_eq!(game.lives_left, 1);
    assert_eq!(game.time_state, TimeState::Stopped);
    assert_eq!(game.balls.len(), 1);
    assert_eq!(game.balls[0].position.center, FPoint::new(70_000, 44_000));
    assert_eq!(game.balls[0].movement_vector, FVector2d::new(-15, 120));
    assert_eq!(game.paddle.position.x1, 50_000);
}

#[test]
fn losing_last_life_ends_the_game_and_fire_is_ignored() {
    let mut game = GameState::make_initial();
    game.balls = vec![ball_at(200_000, 5_000, 0, -100)];
    game.lives_left = 1;
    game.time_state = TimeState::Running { last_update_time_ms: 0 };
    game.tick(100, idle());
    assert_eq!(game.lives_left, 0);
    assert_eq!(game.time_state, TimeState::GameOver);
    let balls_before = game.balls.clone();
    game.tick(200, fire());
    assert_eq!(game.time_state, TimeState::GameOver);
    assert_eq!(game.lives_left, 0);
    assert_eq!(game.balls, balls_before);
    game.tick(300, fire());
    assert_eq!(game.time_state, TimeState::GameOver);
}

#[test]
fn well_formedness_check_rejects_corrupt_state() {
    let mut game = GameState::make_initial();
    assert!(game.is_well_formed());
    game.lives_left = 5;
    assert!(!game.is_well_formed());
}

#[test]
fn variety_constructor_builds_standard_bricks() {
    assert!(matches!(BrickVariety::standard(7), BrickVariety::Standard { color: 7 }));
}
