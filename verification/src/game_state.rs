//! Game entities and the per-tick simulation: paddle movement, ball
//! advancement, collision resolution (paddle over brick over wall), life
//! loss and the stopped/running/game-over state machine.
//!
//! Times are in milliseconds, coordinates in thousandths of a world unit
//! and velocities in thousandths of a unit per millisecond, so every step
//! of a tick is exact integer arithmetic with a full functional
//! specification (`spec_tick`).

use vstd::prelude::*;

verus! {

use crate::geometry::Rectangle;
use crate::geometry::FPoint;
use crate::geometry::FVector2d;
use crate::geometry::Circle;
use crate::geometry::Collision;
use crate::geometry::circle_rectangle_collision;
use crate::geometry::new_vector_after_circle_collision;
use crate::geometry::spec_circle_rectangle_collision;
use crate::geometry::spec_new_vector_after_circle_collision;
use crate::geometry::spec_left;
use crate::geometry::spec_right;
use crate::geometry::spec_top;
use crate::geometry::spec_abs;
use crate::geometry::spec_rotate_cw;
use crate::geometry::lemma_mul_bounds;
use crate::geometry::COORD_LIMIT;
use crate::geometry::VEC_LIMIT;
use crate::geometry::NORMAL_LIMIT;
use crate::fixed::div_floor_i64;
use crate::fixed::lemma_div_floor_bounds;

/// Horizontal paddle speed while a movement key is held, in thousandths
/// of a unit per millisecond (world units per second).
pub const PADDLE_SPEED: i64 = 200;

/// Positions, radii and field bounds the simulation works with stay
/// within this magnitude.
pub const POS_LIMIT: i64 = 500_000_000;

/// Velocity components the simulation works with stay within this
/// magnitude.
pub const VEL_LIMIT: i64 = 1_000_000;

/// Largest time step one tick may advance, in milliseconds; the caller
/// clamps elapsed time to something sane.
pub const DT_LIMIT: i64 = 500;

/// The clockwise angle, in microradians, by which a ball bouncing off the
/// very edge of the paddle is deflected: one eighth of pi (22.5 degrees).
pub const MAX_BOUNCE_ANGLE_URAD: i64 = 392_699;

#[derive(Clone, Copy, Debug, PartialEq, Eq, Structural)]
pub struct Ball {
    pub position: Circle,
    pub movement_vector: FVector2d,
}

#[derive(Clone, Copy, Debug, PartialEq, Eq, Structural)]
pub enum BrickVariety {
    Standard { color: i32 },
    Steel,
}

impl BrickVariety {
    pub fn standard(color: i32) -> (r: BrickVariety)
        ensures
            r == (BrickVariety::Standard { color }),
    {
        BrickVariety::Standard { color }
    }
}

#[derive(Clone, Copy, Debug, PartialEq, Eq, Structural)]
pub struct Brick {
    pub position: Rectangle,
    pub variety: BrickVariety,
}

impl Brick {
    fn new(x1: i64, y1: i64, x2: i64, y2: i64, variety: BrickVariety) -> (r: Brick)
        ensures
            r == (Brick { position: Rectangle { x1, y1, x2, y2 }, variety }),
    {
        Brick { position: Rectangle::make_by_coords(x1, y1, x2, y2), variety }
    }
}

#[derive(Clone, Copy, Debug, PartialEq, Eq, Structural)]
pub struct Paddle {
    pub position: Rectangle,
    pub vector: FVector2d,
}

#[derive(Clone, Copy, Debug, PartialEq, Eq, Structural)]
pub struct BallCollision {
    pub ball: Ball,
    pub brick_index: usize,
    pub collision: Collision,
}

impl BallCollision {
    pub fn new(ball: Ball, brick_index: usize, collision: Collision) -> (r: BallCollision)
        ensures
            r == (BallCollision { ball, brick_index, collision }),
    {
        BallCollision { ball, brick_index, collision }
    }
}

/// Player intent for one tick, derived from raw input by the caller.
#[derive(Clone, Copy, Debug, PartialEq, Eq, Structural)]
pub struct KeyboardState {
    pub move_left: bool,
    pub move_right: bool,
    pub fire: bool,
}

#[derive(Clone, Copy, Debug, PartialEq, Eq, Structural)]
pub enum TimeState {
    Stopped,
    Running { last_update_time_ms: i64 },
    GameOver,
}

#[derive(Debug)]
pub struct GameState {
    pub balls: Vec<Ball>,
    pub bricks: Vec<Brick>,
    pub field: Rectangle,
    pub paddle: Paddle,
    pub time_state: TimeState,
    pub lives_left: i32,
}

/// The mathematical model of a game state: the same data with the entity
/// collections as sequences.
#[verifier::ext_equal]
pub struct GameModel {
    pub balls: Seq<Ball>,
    pub bricks: Seq<Brick>,
    pub field: Rectangle,
    pub paddle: Paddle,
    pub time_state: TimeState,
    pub lives_left: i32,
}

impl View for GameState {
    type V = GameModel;

    open spec fn view(&self) -> GameModel {
        GameModel {
            balls: self.balls@,
            bricks: self.bricks@,
            field: self.field,
            paddle: self.paddle,
            time_state: self.time_state,
            lives_left: self.lives_left,
        }
    }
}

pub open spec fn spec_vec_in_range(v: FVector2d, lim: int) -> bool {
    -lim <= v.x <= lim && -lim <= v.y <= lim
}

pub open spec fn spec_rect_in_range(r: Rectangle, lim: int) -> bool {
    -lim <= r.x1 <= lim && -lim <= r.y1 <= lim && -lim <= r.x2 <= lim && -lim <= r.y2 <= lim
}

pub open spec fn spec_point_in_range(p: FPoint, lim: int) -> bool {
    -lim <= p.x <= lim && -lim <= p.y <= lim
}

pub open spec fn spec_ball_wf(b: Ball) -> bool {
    &&& spec_point_in_range(b.position.center, POS_LIMIT as int)
    &&& 0 < b.position.radius <= POS_LIMIT
    &&& spec_vec_in_range(b.movement_vector, VEL_LIMIT as int)
}

pub open spec fn spec_paddle_wf(p: Paddle) -> bool {
    &&& spec_rect_in_range(p.position, POS_LIMIT as int)
    &&& spec_vec_in_range(p.vector, VEL_LIMIT as int)
    &&& 2 <= spec_right(p.position) - spec_left(p.position) <= POS_LIMIT
}

/// Well-formedness of a whole game state: every entity is within the
/// simulation's coordinate and velocity bounds and the life counter is in
/// its range.  `tick` requires this and a caller can re-check it through
/// `is_well_formed`.
pub open spec fn spec_game_wf(m: GameModel) -> bool {
    &&& spec_rect_in_range(m.field, POS_LIMIT as int)
    &&& spec_paddle_wf(m.paddle)
    &&& forall|i: int| 0 <= i < m.balls.len() ==> spec_ball_wf(#[trigger] m.balls[i])
    &&& forall|i: int|
        0 <= i < m.bricks.len() ==> spec_rect_in_range(
            (#[trigger] m.bricks[i]).position,
            POS_LIMIT as int,
        )
    &&& 0 <= m.lives_left <= 3
}

/// Timestamps a tick accepts: while running, time moves forward by at
/// most `DT_LIMIT` milliseconds.
pub open spec fn spec_tick_time_ok(m: GameModel, timestamp_ms: i64) -> bool {
    match m.time_state {
        TimeState::Running { last_update_time_ms } => last_update_time_ms <= timestamp_ms
            <= last_update_time_ms + DT_LIMIT,
        _ => true,
    }
}

/// A ball advanced by its velocity times the elapsed milliseconds.
pub open spec fn spec_advance_ball(b: Ball, dt: int) -> Ball {
    Ball {
        position: Circle {
            center: FPoint {
                x: (b.position.center.x + b.movement_vector.x * dt) as i64,
                y: (b.position.center.y + b.movement_vector.y * dt) as i64,
            },
            radius: b.position.radius,
        },
        movement_vector: b.movement_vector,
    }
}

/// Boundary test against the left, right and top field edges, in that
/// order; the bottom edge is deliberately open — balls leaving there are
/// lost, not bounced.
pub open spec fn spec_wall_collision(field: Rectangle, ball: Ball) -> Option<Collision> {
    let c = ball.position.center;
    let rad = ball.position.radius;
    if c.x - rad < spec_left(field) {
        Some(
            Collision {
                point: FPoint { x: spec_left(field), y: c.y },
                normal: FVector2d { x: (c.x - spec_left(field)) as i64, y: 0 },
            },
        )
    } else if c.x + rad > spec_right(field) {
        Some(
            Collision {
                point: FPoint { x: spec_right(field), y: c.y },
                normal: FVector2d { x: (c.x - spec_right(field)) as i64, y: 0 },
            },
        )
    } else if c.y + rad > spec_top(field) {
        Some(
            Collision {
                point: FPoint { x: c.x, y: spec_top(field) },
                normal: FVector2d { x: 0, y: (c.y - spec_top(field)) as i64 },
            },
        )
    } else {
        None
    }
}

/// Paddle contact: the plain rectangle classification, with the normal
/// rotated clockwise by an angle proportional to how far the contact
/// point sits from the paddle's center — up to `MAX_BOUNCE_ANGLE_URAD`
/// at the edges — whenever the contact lies exactly on the paddle's top
/// edge with a perpendicular normal.
pub open spec fn spec_paddle_collision(paddle: Paddle, ball: Ball) -> Option<Collision> {
    match spec_circle_rectangle_collision(ball.position, paddle.position) {
        Some(col) => {
            let width = spec_right(paddle.position) - spec_left(paddle.position);
            let half = width / 2;
            let x_rel = (col.point.x - spec_left(paddle.position)) - half;
            let angle = if col.point.y == spec_top(paddle.position) && col.normal.x * width == 0
                && half > 0 {
                (MAX_BOUNCE_ANGLE_URAD * x_rel) / half
            } else {
                0
            };
            Some(Collision { point: col.point, normal: spec_rotate_cw(col.normal, angle) })
        },
        None => None,
    }
}

/// First brick, scanning upward from index `i`, that the ball touches.
pub open spec fn spec_brick_collision_from(bricks: Seq<Brick>, ball: Ball, i: int) -> Option<
    (int, Collision),
>
    decreases bricks.len() - i,
{
    if i < 0 || i >= bricks.len() {
        None
    } else {
        match spec_circle_rectangle_collision(ball.position, bricks[i].position) {
            Some(col) => Some((i, col)),
            None => spec_brick_collision_from(bricks, ball, i + 1),
        }
    }
}

/// One (already advanced) ball against the world: a detected brick
/// contact removes that brick (order-unstable removal) whatever response
/// wins; the response itself takes the first contact in paddle, brick,
/// wall priority and replaces the ball's velocity.
pub open spec fn spec_collide_ball(
    ball: Ball,
    bricks: Seq<Brick>,
    paddle: Paddle,
    field: Rectangle,
) -> (Ball, Seq<Brick>) {
    let pc = spec_paddle_collision(paddle, ball);
    let bc = spec_brick_collision_from(bricks, ball, 0);
    let wc = spec_wall_collision(field, ball);
    let bricks2 = match bc {
        Some((i, col)) => bricks.update(i, bricks.last()).drop_last(),
        None => bricks,
    };
    let chosen: Option<(Collision, FVector2d)> = match pc {
        Some(c) => Some((c, paddle.vector)),
        None => match bc {
            Some((i, col)) => Some((col, FVector2d { x: 0, y: 0 })),
            None => match wc {
                Some(c) => Some((c, FVector2d { x: 0, y: 0 })),
                None => None,
            },
        },
    };
    match chosen {
        Some((col, other)) => (
            Ball {
                position: ball.position,
                movement_vector: spec_new_vector_after_circle_collision(
                    ball.movement_vector,
                    col,
                    other,
                ),
            },
            bricks2,
        ),
        None => (ball, bricks2),
    }
}

/// The collision pass over the balls from index `i` on: each ball in
/// order is advanced and resolved against the (possibly already thinned)
/// brick collection.
pub open spec fn spec_collisions_from(
    balls: Seq<Ball>,
    bricks: Seq<Brick>,
    paddle: Paddle,
    field: Rectangle,
    dt: int,
    i: int,
) -> (Seq<Ball>, Seq<Brick>)
    decreases balls.len() - i,
{
    if i < 0 || i >= balls.len() {
        (balls, bricks)
    } else {
        let b1 = spec_advance_ball(balls[i], dt);
        let res = spec_collide_ball(b1, bricks, paddle, field);
        spec_collisions_from(balls.update(i, res.0), res.1, paddle, field, dt, i + 1)
    }
}

/// The balls from index `i` on whose center is still at or above the
/// bottom of the screen, in order.
pub open spec fn spec_keep_from(balls: Seq<Ball>, i: int) -> Seq<Ball>
    decreases balls.len() - i,
{
    if i < 0 || i >= balls.len() {
        Seq::empty()
    } else if balls[i].position.center.y < 0 {
        spec_keep_from(balls, i + 1)
    } else {
        seq![balls[i]] + spec_keep_from(balls, i + 1)
    }
}

/// The paddle moved by its velocity for `dt` milliseconds, then pushed
/// back inside the horizontal field bounds.
pub open spec fn spec_paddle_advance(p: Paddle, dt: int, left_limit: i64, right_limit: i64) -> Paddle {
    let moved = Rectangle {
        x1: (p.position.x1 + p.vector.x * dt) as i64,
        y1: (p.position.y1 + p.vector.y * dt) as i64,
        x2: (p.position.x2 + p.vector.x * dt) as i64,
        y2: (p.position.y2 + p.vector.y * dt) as i64,
    };
    let limited = if spec_left(moved) < left_limit {
        Rectangle {
            x1: left_limit,
            y1: moved.y1,
            x2: (left_limit + spec_abs(moved.x1 - moved.x2)) as i64,
            y2: moved.y2,
        }
    } else if spec_right(moved) > right_limit {
        Rectangle {
            x1: (right_limit - spec_abs(moved.x1 - moved.x2)) as i64,
            y1: moved.y1,
            x2: right_limit,
            y2: moved.y2,
        }
    } else {
        moved
    };
    Paddle { position: limited, vector: p.vector }
}

pub open spec fn spec_initial_paddle() -> Paddle {
    Paddle {
        position: Rectangle { x1: 50_000, y1: 30_000, x2: 100_000, y2: 40_000 },
        vector: FVector2d { x: 0, y: 0 },
    }
}

pub open spec fn spec_initial_balls() -> Seq<Ball> {
    seq![
        Ball {
            position: Circle { center: FPoint { x: 70_000, y: 44_000 }, radius: 4_000 },
            movement_vector: FVector2d { x: (-15) as i64, y: 120 },
        },
    ]
}

pub open spec fn spec_initial_bricks() -> Seq<Brick> {
    seq![
        Brick {
            position: Rectangle { x1: 10_000, y1: 400_000, x2: 50_000, y2: 420_000 },
            variety: BrickVariety::Standard { color: 1 },
        },
        Brick {
            position: Rectangle { x1: 50_000, y1: 400_000, x2: 90_000, y2: 420_000 },
            variety: BrickVariety::Standard { color: 2 },
        },
        Brick {
            position: Rectangle { x1: 10_000, y1: 420_000, x2: 50_000, y2: 440_000 },
            variety: BrickVariety::Standard { color: 3 },
        },
    ]
}

pub open spec fn spec_initial_model() -> GameModel {
    GameModel {
        balls: spec_initial_balls(),
        bricks: spec_initial_bricks(),
        field: Rectangle { x1: 10_000, y1: 10_000, x2: 410_000, y2: 460_000 },
        paddle: spec_initial_paddle(),
        time_state: TimeState::Stopped,
        lives_left: 3,
    }
}

/// Balls whose center fell below the screen are dropped; if none is left
/// a life is deducted and the paddle, the single ball and the stopped
/// state are restored.
pub open spec fn spec_handle_losing_ball(m: GameModel) -> GameModel {
    let kept = spec_keep_from(m.balls, 0);
    if kept.len() == 0 {
        GameModel {
            balls: spec_initial_balls(),
            bricks: m.bricks,
            field: m.field,
            paddle: spec_initial_paddle(),
            time_state: TimeState::Stopped,
            lives_left: (m.lives_left - 1) as i32,
        }
    } else {
        GameModel {
            balls: kept,
            bricks: m.bricks,
            field: m.field,
            paddle: m.paddle,
            time_state: m.time_state,
            lives_left: m.lives_left,
        }
    }
}

/// A life count of exactly zero forces the terminal state.
pub open spec fn spec_handle_game_over(m: GameModel) -> GameModel {
    if m.lives_left == 0 {
        GameModel {
            balls: m.balls,
            bricks: m.bricks,
            field: m.field,
            paddle: m.paddle,
            time_state: TimeState::GameOver,
            lives_left: m.lives_left,
        }
    } else {
        m
    }
}

/// One running step: paddle advance, collision pass, ball loss, game
/// over, and — if still running — the new timestamp is stamped.
pub open spec fn spec_execute_movement(m: GameModel, now_ms: i64, last_ms: i64) -> GameModel {
    let dt = now_ms - last_ms;
    let paddle2 = spec_paddle_advance(m.paddle, dt, spec_left(m.field), spec_right(m.field));
    let res = spec_collisions_from(m.balls, m.bricks, paddle2, m.field, dt, 0);
    let m2 = GameModel {
        balls: res.0,
        bricks: res.1,
        field: m.field,
        paddle: paddle2,
        time_state: m.time_state,
        lives_left: m.lives_left,
    };
    let m4 = spec_handle_game_over(spec_handle_losing_ball(m2));
    match m4.time_state {
        TimeState::Running { .. } => GameModel {
            balls: m4.balls,
            bricks: m4.bricks,
            field: m4.field,
            paddle: m4.paddle,
            time_state: TimeState::Running { last_update_time_ms: now_ms },
            lives_left: m4.lives_left,
        },
        _ => m4,
    }
}

/// The paddle velocity the player intent selects: rightward wins over
/// leftward when both keys are held.
pub open spec fn spec_input_vector(ks: KeyboardState) -> FVector2d {
    if ks.move_right {
        FVector2d { x: PADDLE_SPEED, y: 0 }
    } else if ks.move_left {
        FVector2d { x: (-PADDLE_SPEED) as i64, y: 0 }
    } else {
        FVector2d { x: 0, y: 0 }
    }
}

/// A whole tick: the paddle's velocity follows the intent, a fire intent
/// starts the simulation from the stopped state, and while running the
/// movement step executes.
pub open spec fn spec_tick(m: GameModel, timestamp_ms: i64, ks: KeyboardState) -> GameModel {
    let m1 = GameModel {
        balls: m.balls,
        bricks: m.bricks,
        field: m.field,
        paddle: Paddle { position: m.paddle.position, vector: spec_input_vector(ks) },
        time_state: m.time_state,
        lives_left: m.lives_left,
    };
    let ts = if ks.fire && m1.time_state == TimeState::Stopped {
        TimeState::Running { last_update_time_ms: timestamp_ms }
    } else {
        m1.time_state
    };
    let m2 = GameModel {
        balls: m1.balls,
        bricks: m1.bricks,
        field: m1.field,
        paddle: m1.paddle,
        time_state: ts,
        lives_left: m1.lives_left,
    };
    match m2.time_state {
        TimeState::Running { last_update_time_ms } => spec_execute_movement(
            m2,
            timestamp_ms,
            last_update_time_ms,
        ),
        _ => m2,
    }
}

impl Paddle {
    fn set_vector(&mut self, vector: FVector2d)
        ensures
            final(self).position == old(self).position,
            final(self).vector == vector,
    {
        self.vector = vector;
    }

    fn advance(&mut self, time_delta: i64, left_limit: i64, right_limit: i64)
        requires
            spec_paddle_wf(*old(self)),
            0 <= time_delta <= DT_LIMIT,
            -POS_LIMIT <= left_limit <= POS_LIMIT,
            -POS_LIMIT <= right_limit <= POS_LIMIT,
        ensures
            *final(self) == spec_paddle_advance(*old(self), time_delta as int, left_limit, right_limit),
    {
        proof {
            lemma_mul_bounds(self.vector.x as int, time_delta as int, VEL_LIMIT as int, DT_LIMIT as int);
            lemma_mul_bounds(self.vector.y as int, time_delta as int, VEL_LIMIT as int, DT_LIMIT as int);
        }
        let delta_v = self.vector.mul_scalar(time_delta);
        let new_position = self.position.advance(&delta_v);
        let limited = if new_position.left() < left_limit {
            new_position.with_left_at(left_limit)
        } else if new_position.right() > right_limit {
            new_position.with_right_at(right_limit)
        } else {
            new_position
        };
        self.position.mutable_set(limited);
    }
}

/// The paddle after `spec_paddle_advance` keeps its width and velocity
/// and stays within the collision-safe coordinate range.
pub proof fn lemma_paddle_advance_props(p: Paddle, dt: int, left_limit: i64, right_limit: i64)
    requires
        spec_paddle_wf(p),
        0 <= dt <= DT_LIMIT,
        -POS_LIMIT <= left_limit <= POS_LIMIT,
        -POS_LIMIT <= right_limit <= POS_LIMIT,
    ensures
        spec_rect_in_range(
            spec_paddle_advance(p, dt, left_limit, right_limit).position,
            COORD_LIMIT as int,
        ),
        spec_right(spec_paddle_advance(p, dt, left_limit, right_limit).position) - spec_left(
            spec_paddle_advance(p, dt, left_limit, right_limit).position,
        ) == spec_right(p.position) - spec_left(p.position),
        spec_paddle_advance(p, dt, left_limit, right_limit).vector == p.vector,
{
    lemma_mul_bounds(p.vector.x as int, dt, VEL_LIMIT as int, DT_LIMIT as int);
    lemma_mul_bounds(p.vector.y as int, dt, VEL_LIMIT as int, DT_LIMIT as int);
}

impl GameState {
    pub fn make_initial() -> (r: GameState)
        ensures
            r@ == spec_initial_model(),
    {
        let r = GameState {
            balls: GameState::initial_balls_state(),
            bricks: GameState::initial_bricks_state(),
            field: Rectangle::make_by_coords(10_000, 10_000, 410_000, 460_000),
            paddle: GameState::initial_paddle_state(),
            time_state: TimeState::Stopped,
            lives_left: 3,
        };
        proof {
            assert(r@ =~= spec_initial_model());
        }
        r
    }

    fn initial_paddle_state() -> (r: Paddle)
        ensures
            r == spec_initial_paddle(),
    {
        Paddle {
            position: Rectangle::make_by_coords(50_000, 30_000, 100_000, 40_000),
            vector: FVector2d::new(0, 0),
        }
    }

    fn initial_balls_state() -> (r: Vec<Ball>)
        ensures
            r@ == spec_initial_balls(),
    {
        let balls = vec![
            Ball {
                position: Circle::new(FPoint::new(70_000, 44_000), 4_000),
                movement_vector: FVector2d::new(-15, 120),
            },
        ];
        proof {
            assert(balls@ =~= spec_initial_balls());
        }
        balls
    }

    fn initial_bricks_state() -> (r: Vec<Brick>)
        ensures
            r@ == spec_initial_bricks(),
    {
        let bricks = vec![
            Brick::new(10_000, 400_000, 50_000, 420_000, BrickVariety::standard(1)),
            Brick::new(50_000, 400_000, 90_000, 420_000, BrickVariety::standard(2)),
            Brick::new(10_000, 420_000, 50_000, 440_000, BrickVariety::standard(3)),
        ];
        proof {
            assert(bricks@ =~= spec_initial_bricks());
        }
        bricks
    }

    pub fn tick(&mut self, timestamp_ms: i64, keyboard_state: KeyboardState)
        requires
            spec_game_wf(old(self)@),
            spec_tick_time_ok(old(self)@, timestamp_ms),
        ensures
            final(self)@ == spec_tick(old(self)@, timestamp_ms, keyboard_state),
    {
        self.paddle.set_vector(FVector2d::zero());
        if keyboard_state.move_left {
            self.paddle.set_vector(FVector2d::new(-PADDLE_SPEED, 0));
        }
        if keyboard_state.move_right {
            self.paddle.set_vector(FVector2d::new(PADDLE_SPEED, 0));
        }
        if keyboard_state.fire && self.time_state == TimeState::Stopped {
            self.time_state = TimeState::Running { last_update_time_ms: timestamp_ms };
        }
        match self.time_state {
            TimeState::Running { last_update_time_ms } => {
                self.execute_movement(timestamp_ms, last_update_time_ms);
            },
            _ => {},
        }
    }

    fn execute_movement(&mut self, current_timestamp_ms: i64, last_update_time_ms: i64)
        requires
            spec_game_wf(old(self)@),
            0 <= current_timestamp_ms - last_update_time_ms <= DT_LIMIT,
        ensures
            final(self)@ == spec_execute_movement(
                old(self)@,
                current_timestamp_ms,
                last_update_time_ms,
            ),
    {
        let time_delta = current_timestamp_ms - last_update_time_ms;
        let left_limit = self.field.left();
        let right_limit = self.field.right();
        proof {
            lemma_paddle_advance_props(self.paddle, time_delta as int, left_limit, right_limit);
        }
        self.paddle.advance(time_delta, left_limit, right_limit);
        self.handle_collisions(time_delta);
        self.handle_losing_ball();
        self.handle_game_over();
        match self.time_state {
            TimeState::Running { .. } => {
                self.time_state = TimeState::Running { last_update_time_ms: current_timestamp_ms };
            },
            _ => {},
        }
    }

    fn handle_collisions(&mut self, time_delta: i64)
        requires
            0 <= time_delta <= DT_LIMIT,
            forall|i: int|
                0 <= i < old(self)@.balls.len() ==> spec_ball_wf(#[trigger] old(self)@.balls[i]),
            forall|i: int|
                0 <= i < old(self)@.bricks.len() ==> spec_rect_in_range(
                    (#[trigger] old(self)@.bricks[i]).position,
                    POS_LIMIT as int,
                ),
            spec_rect_in_range(old(self).paddle.position, COORD_LIMIT as int),
            2 <= spec_right(old(self).paddle.position) - spec_left(old(self).paddle.position),
            spec_vec_in_range(old(self).paddle.vector, VEL_LIMIT as int),
            spec_rect_in_range(old(self).field, POS_LIMIT as int),
        ensures
            final(self).balls@ == spec_collisions_from(
                old(self).balls@,
                old(self).bricks@,
                old(self).paddle,
                old(self).field,
                time_delta as int,
                0,
            ).0,
            final(self).bricks@ == spec_collisions_from(
                old(self).balls@,
                old(self).bricks@,
                old(self).paddle,
                old(self).field,
                time_delta as int,
                0,
            ).1,
            final(self).paddle == old(self).paddle,
            final(self).field == old(self).field,
            final(self).time_state == old(self).time_state,
            final(self).lives_left == old(self).lives_left,
    {
        let ghost balls0 = self.balls@;
        let ghost bricks0 = self.bricks@;
        proof {
            assert forall|j: int| 0 <= j < balls0.len() implies spec_ball_wf(
                #[trigger] balls0[j],
            ) by {
                assert(balls0[j] == old(self)@.balls[j]);
            }
            assert forall|j: int| 0 <= j < bricks0.len() implies spec_rect_in_range(
                (#[trigger] bricks0[j]).position,
                POS_LIMIT as int,
            ) by {
                assert(bricks0[j] == old(self)@.bricks[j]);
            }
        }
        let ball_count = self.balls.len();
        let mut i: usize = 0;
        while i < ball_count
            invariant
                0 <= time_delta <= DT_LIMIT,
                i <= ball_count,
                ball_count == balls0.len(),
                self.balls@.len() == balls0.len(),
                forall|j: int| i <= j < balls0.len() ==> self.balls@[j] == balls0[j],
                forall|j: int| 0 <= j < balls0.len() ==> spec_ball_wf(#[trigger] balls0[j]),
                forall|j: int|
                    0 <= j < self.bricks@.len() ==> spec_rect_in_range(
                        (#[trigger] self.bricks@[j]).position,
                        POS_LIMIT as int,
                    ),
                spec_rect_in_range(self.paddle.position, COORD_LIMIT as int),
                2 <= spec_right(self.paddle.position) - spec_left(self.paddle.position),
                spec_vec_in_range(self.paddle.vector, VEL_LIMIT as int),
                spec_rect_in_range(self.field, POS_LIMIT as int),
                self.paddle == old(self).paddle,
                self.field == old(self).field,
                self.time_state == old(self).time_state,
                self.lives_left == old(self).lives_left,
                spec_collisions_from(
                    balls0,
                    bricks0,
                    self.paddle,
                    self.field,
                    time_delta as int,
                    0,
                ) == spec_collisions_from(
                    self.balls@,
                    self.bricks@,
                    self.paddle,
                    self.field,
                    time_delta as int,
                    i as int,
                ),
            decreases ball_count - i,
        {
            let mut b = self.balls[i];
            proof {
                assert(b == balls0[i as int]);
                assert(spec_ball_wf(balls0[i as int]));
                lemma_mul_bounds(
                    b.movement_vector.x as int,
                    time_delta as int,
                    VEL_LIMIT as int,
                    DT_LIMIT as int,
                );
                lemma_mul_bounds(
                    b.movement_vector.y as int,
                    time_delta as int,
                    VEL_LIMIT as int,
                    DT_LIMIT as int,
                );
            }
            let adjusted_vector = b.movement_vector.mul_scalar(time_delta);
            b.position.center = b.position.center.add(adjusted_vector);
            let ghost balls_pre = self.balls@;
            let ghost bricks_pre = self.bricks@;
            proof {
                assert(spec_ball_wf(balls0[i as int]));
                assert(b == spec_advance_ball(balls_pre[i as int], time_delta as int));
                assert(-COORD_LIMIT <= b.position.center.x <= COORD_LIMIT);
                assert(-COORD_LIMIT <= b.position.center.y <= COORD_LIMIT);
                assert(0 < b.position.radius <= COORD_LIMIT);
            }
            let paddle_vector = self.paddle.vector;
            let paddle_collision = self.has_ball_collided_with_paddle(&b);
            let brick_collision = self.has_ball_collided_with_bricks(&b);
            if let Some(bc) = &brick_collision {
                self.bricks.swap_remove(bc.brick_index);
            }
            let wall_collision = self.has_ball_coollided_with_wall(&b);
            let chosen: Option<(Collision, FVector2d)> = match paddle_collision {
                Some(c) => Some((c, paddle_vector)),
                None => match brick_collision {
                    Some(bc) => Some((bc.collision, FVector2d::zero())),
                    None => match wall_collision {
                        Some(c) => Some((c, FVector2d::zero())),
                        None => None,
                    },
                },
            };
            match chosen {
                Some((collision, other_object_vector)) => {
                    proof {
                        if paddle_collision is Some {
                            assert(collision == paddle_collision->Some_0);
                        } else if brick_collision is Some {
                            let bi = brick_collision->Some_0.brick_index as int;
                            crate::geometry::lemma_collision_point_in_rect(
                                b.position,
                                bricks_pre[bi].position,
                            );
                            assert(collision == brick_collision->Some_0.collision);
                        } else {
                            assert(wall_collision is Some);
                            assert(collision == spec_wall_collision(self.field, b)->Some_0);
                        }
                        assert(-NORMAL_LIMIT <= collision.normal.x <= NORMAL_LIMIT);
                        assert(-NORMAL_LIMIT <= collision.normal.y <= NORMAL_LIMIT);
                        assert(-VEC_LIMIT <= other_object_vector.x <= VEC_LIMIT);
                        assert(-VEC_LIMIT <= other_object_vector.y <= VEC_LIMIT);
                    }
                    let new_movement_vector = new_vector_after_circle_collision(
                        &b.movement_vector,
                        &collision,
                        &other_object_vector,
                    );
                    b.movement_vector = new_movement_vector;
                },
                None => {},
            }
            self.balls[i] = b;
            proof {
                let res = spec_collide_ball(
                    spec_advance_ball(balls_pre[i as int], time_delta as int),
                    bricks_pre,
                    self.paddle,
                    self.field,
                );
                assert(b == res.0);
                assert(self.bricks@ == res.1);
                assert(self.balls@ =~= balls_pre.update(i as int, res.0));
            }
            i = i + 1;
        }
    }

    fn handle_losing_ball(&mut self)
        requires
            old(self).lives_left > i32::MIN,
        ensures
            final(self)@ == spec_handle_losing_ball(old(self)@),
    {
        let ghost balls0 = self.balls@;
        let mut kept: Vec<Ball> = Vec::new();
        let n = self.balls.len();
        let mut i: usize = 0;
        while i < n
            invariant
                i <= n,
                n == balls0.len(),
                self.balls@ == balls0,
                kept@ + spec_keep_from(balls0, i as int) == spec_keep_from(balls0, 0),
            decreases n - i,
        {
            let ball = self.balls[i];
            if !GameState::has_ball_left_screen(&ball) {
                kept.push(ball);
            }
            proof {
                assert(kept@ + spec_keep_from(balls0, i + 1) =~= spec_keep_from(balls0, 0));
            }
            i = i + 1;
        }
        proof {
            assert(kept@ + spec_keep_from(balls0, n as int) =~= kept@);
        }
        self.balls = kept;
        if self.balls.len() == 0 {
            self.lives_left = self.lives_left - 1;
            self.paddle = GameState::initial_paddle_state();
            self.balls = GameState::initial_balls_state();
            self.time_state = TimeState::Stopped;
        }
    }

    fn handle_game_over(&mut self)
        ensures
            final(self)@ == spec_handle_game_over(old(self)@),
    {
        if self.lives_left == 0 {
            self.time_state = TimeState::GameOver;
        }
    }

    fn has_ball_collided_with_bricks(&self, ball: &Ball) -> (r: Option<BallCollision>)
        requires
            -COORD_LIMIT <= ball.position.center.x <= COORD_LIMIT,
            -COORD_LIMIT <= ball.position.center.y <= COORD_LIMIT,
            0 <= ball.position.radius <= COORD_LIMIT,
            forall|i: int|
                0 <= i < self.bricks@.len() ==> spec_rect_in_range(
                    (#[trigger] self.bricks@[i]).position,
                    POS_LIMIT as int,
                ),
        ensures
            match r {
                Some(bc) => {
                    &&& spec_brick_collision_from(self.bricks@, *ball, 0) == Some(
                        (bc.brick_index as int, bc.collision),
                    )
                    &&& bc.ball == *ball
                    &&& bc.brick_index < self.bricks@.len()
                    &&& spec_circle_rectangle_collision(
                        ball.position,
                        self.bricks@[bc.brick_index as int].position,
                    ) == Some(bc.collision)
                },
                None => spec_brick_collision_from(self.bricks@, *ball, 0) is None,
            },
    {
        let n = self.bricks.len();
        let mut index: usize = 0;
        while index < n
            invariant
                index <= n,
                n == self.bricks@.len(),
                -COORD_LIMIT <= ball.position.center.x <= COORD_LIMIT,
                -COORD_LIMIT <= ball.position.center.y <= COORD_LIMIT,
                0 <= ball.position.radius <= COORD_LIMIT,
                forall|i: int|
                    0 <= i < self.bricks@.len() ==> spec_rect_in_range(
                        (#[trigger] self.bricks@[i]).position,
                        POS_LIMIT as int,
                    ),
                spec_brick_collision_from(self.bricks@, *ball, 0) == spec_brick_collision_from(
                    self.bricks@,
                    *ball,
                    index as int,
                ),
            decreases n - index,
        {
            let collision_opt = circle_rectangle_collision(
                &ball.position,
                &self.bricks[index].position,
            );
            match collision_opt {
                Some(collision) => {
                    return Some(BallCollision::new(*ball, index, collision));
                },
                None => {},
            }
            index = index + 1;
        }
        None
    }

    fn has_ball_coollided_with_wall(&self, ball: &Ball) -> (r: Option<Collision>)
        requires
            -COORD_LIMIT <= ball.position.center.x <= COORD_LIMIT,
            -COORD_LIMIT <= ball.position.center.y <= COORD_LIMIT,
            0 <= ball.position.radius <= COORD_LIMIT,
            spec_rect_in_range(self.field, POS_LIMIT as int),
        ensures
            r == spec_wall_collision(self.field, *ball),
    {
        if ball.position.center.x - ball.position.radius < self.field.left() {
            let collision_point = FPoint::new(self.field.left(), ball.position.center.y);
            let normal = FVector2d::between(&collision_point, &ball.position.center);
            Some(Collision { point: collision_point, normal })
        } else if ball.position.center.x + ball.position.radius > self.field.right() {
            let collision_point = FPoint::new(self.field.right(), ball.position.center.y);
            let normal = FVector2d::between(&collision_point, &ball.position.center);
            Some(Collision { point: collision_point, normal })
        } else if ball.position.center.y + ball.position.radius > self.field.top() {
            let collision_point = FPoint::new(ball.position.center.x, self.field.top());
            let normal = FVector2d::between(&collision_point, &ball.position.center);
            Some(Collision { point: collision_point, normal })
        } else {
            None
        }
    }

    fn has_ball_collided_with_paddle(&self, ball: &Ball) -> (r: Option<Collision>)
        requires
            -COORD_LIMIT <= ball.position.center.x <= COORD_LIMIT,
            -COORD_LIMIT <= ball.position.center.y <= COORD_LIMIT,
            0 <= ball.position.radius <= COORD_LIMIT,
            spec_rect_in_range(self.paddle.position, COORD_LIMIT as int),
            2 <= spec_right(self.paddle.position) - spec_left(self.paddle.position),
        ensures
            r == spec_paddle_collision(self.paddle, *ball),
            match r {
                Some(c) => spec_vec_in_range(c.normal, NORMAL_LIMIT as int),
                None => true,
            },
    {
        let collision_opt = circle_rectangle_collision(&ball.position, &self.paddle.position);
        match collision_opt {
            None => None,
            Some(collision) => {
                proof {
                    crate::geometry::lemma_collision_point_in_rect(
                        ball.position,
                        self.paddle.position,
                    );
                }
                let left = self.paddle.position.left();
                let right = self.paddle.position.right();
                let top = self.paddle.position.top();
                let paddle_width = right - left;
                let half = paddle_width / 2;
                let x_rel = (collision.point.x - left) - half;
                let paddle_horisontal_vector = FVector2d::new(paddle_width, 0);
                let d = collision.normal.dot_product(&paddle_horisontal_vector);
                let angle_rotation = if collision.point.y == top && d == 0 {
                    proof {
                        vstd::arithmetic::div_mod::lemma_fundamental_div_mod(
                            paddle_width as int,
                            2,
                        );
                        lemma_mul_bounds(
                            MAX_BOUNCE_ANGLE_URAD as int,
                            x_rel as int,
                            MAX_BOUNCE_ANGLE_URAD as int,
                            2_000_000_001,
                        );
                        assert(-(785_398 * (half as int)) <= MAX_BOUNCE_ANGLE_URAD * x_rel
                            <= 785_398 * (half as int)) by (nonlinear_arith)
                            requires
                                half >= 1,
                                -half <= x_rel <= half + 1,
                        {}
                        lemma_div_floor_bounds(
                            MAX_BOUNCE_ANGLE_URAD as int * x_rel as int,
                            half as int,
                            785_398,
                        );
                    }
                    div_floor_i64(MAX_BOUNCE_ANGLE_URAD * x_rel, half)
                } else {
                    0
                };
                Some(
                    Collision {
                        point: collision.point,
                        normal: collision.normal.rotate_clockwise(angle_rotation),
                    },
                )
            },
        }
    }

    fn has_ball_left_screen(ball: &Ball) -> (r: bool)
        ensures
            r == (ball.position.center.y < 0),
    {
        ball.position.center.y < 0
    }

    /// Runtime check of `spec_game_wf`, for a caller that wants to know
    /// whether the state is still within the bounds `tick` requires.
    pub fn is_well_formed(&self) -> (r: bool)
        ensures
            r == spec_game_wf(self@),
    {
        if !rect_in_range_exec(&self.field, POS_LIMIT) {
            return false;
        }
        if !rect_in_range_exec(&self.paddle.position, POS_LIMIT) {
            return false;
        }
        if !vec_in_range_exec(&self.paddle.vector, VEL_LIMIT) {
            return false;
        }
        let width = self.paddle.position.right() - self.paddle.position.left();
        if !(2 <= width && width <= POS_LIMIT) {
            return false;
        }
        if !(0 <= self.lives_left && self.lives_left <= 3) {
            return false;
        }
        let n = self.balls.len();
        let mut i: usize = 0;
        while i < n
            invariant
                i <= n,
                n == self.balls@.len(),
                forall|j: int| 0 <= j < i ==> spec_ball_wf(#[trigger] self.balls@[j]),
            decreases n - i,
        {
            let b = &self.balls[i];
            let center_ok = -POS_LIMIT <= b.position.center.x && b.position.center.x <= POS_LIMIT
                && -POS_LIMIT <= b.position.center.y && b.position.center.y <= POS_LIMIT;
            let radius_ok = 0 < b.position.radius && b.position.radius <= POS_LIMIT;
            if !(center_ok && radius_ok && vec_in_range_exec(&b.movement_vector, VEL_LIMIT)) {
                proof {
                    assert(!spec_ball_wf(self@.balls[i as int]));
                    assert(!spec_game_wf(self@));
                }
                return false;
            }
            i = i + 1;
        }
        let m = self.bricks.len();
        let mut k: usize = 0;
        while k < m
            invariant
                k <= m,
                m == self.bricks@.len(),
                forall|j: int|
                    0 <= j < k ==> spec_rect_in_range(
                        (#[trigger] self.bricks@[j]).position,
                        POS_LIMIT as int,
                    ),
            decreases m - k,
        {
            if !rect_in_range_exec(&self.bricks[k].position, POS_LIMIT) {
                proof {
                    assert(!spec_rect_in_range(self@.bricks[k as int].position, POS_LIMIT as int));
                    assert(!spec_game_wf(self@));
                }
                return false;
            }
            k = k + 1;
        }
        true
    }
}

fn rect_in_range_exec(r: &Rectangle, lim: i64) -> (b: bool)
    requires
        lim >= 0,
    ensures
        b == spec_rect_in_range(*r, lim as int),
{
    -lim <= r.x1 && r.x1 <= lim && -lim <= r.y1 && r.y1 <= lim && -lim <= r.x2 && r.x2 <= lim
        && -lim <= r.y2 && r.y2 <= lim
}

fn vec_in_range_exec(v: &FVector2d, lim: i64) -> (b: bool)
    requires
        lim >= 0,
    ensures
        b == spec_vec_in_range(*v, lim as int),
{
    -lim <= v.x && v.x <= lim && -lim <= v.y && v.y <= lim
}

/// Structural invariant of the simulation: lives never go negative, a
/// life count of zero means the game is over, and outside the terminal
/// state there is always at least one ball.
pub open spec fn spec_game_inv(m: GameModel) -> bool {
    &&& m.lives_left >= 0
    &&& (m.lives_left == 0 ==> m.time_state is GameOver)
    &&& (!(m.time_state is GameOver) ==> m.balls.len() >= 1)
}

/// The initial state is well formed and satisfies the invariant.
pub proof fn lemma_initial_well_formed()
    ensures
        spec_game_wf(spec_initial_model()),
        spec_game_inv(spec_initial_model()),
{
    let m = spec_initial_model();
    assert(m.balls.len() == 1);
    assert(spec_ball_wf(m.balls[0]));
    assert(m.bricks.len() == 3);
    assert(spec_rect_in_range(m.bricks[0].position, POS_LIMIT as int));
    assert(spec_rect_in_range(m.bricks[1].position, POS_LIMIT as int));
    assert(spec_rect_in_range(m.bricks[2].position, POS_LIMIT as int));
    assert forall|i: int| 0 <= i < m.balls.len() implies spec_ball_wf(#[trigger] m.balls[i]) by {
        assert(m.balls[i] == m.balls[0]);
    }
    assert forall|i: int| 0 <= i < m.bricks.len() implies spec_rect_in_range(
        (#[trigger] m.bricks[i]).position,
        POS_LIMIT as int,
    ) by {
        if i == 0 {
        } else if i == 1 {
        } else {
            assert(m.bricks[i] == m.bricks[2]);
        }
    }
}

/// The collision pass touches velocities and bricks, never the number of
/// balls.
pub proof fn lemma_collisions_preserve_ball_count(
    balls: Seq<Ball>,
    bricks: Seq<Brick>,
    paddle: Paddle,
    field: Rectangle,
    dt: int,
    i: int,
)
    ensures
        spec_collisions_from(balls, bricks, paddle, field, dt, i).0.len() == balls.len(),
    decreases balls.len() - i,
{
    if i < 0 || i >= balls.len() {
    } else {
        let b1 = spec_advance_ball(balls[i], dt);
        let res = spec_collide_ball(b1, bricks, paddle, field);
        lemma_collisions_preserve_ball_count(
            balls.update(i, res.0),
            res.1,
            paddle,
            field,
            dt,
            i + 1,
        );
    }
}

/// The collision pass never moves a ball: each resulting position is the
/// advanced position, whatever contacts were resolved.
pub proof fn lemma_collisions_preserve_positions(
    balls: Seq<Ball>,
    bricks: Seq<Brick>,
    paddle: Paddle,
    field: Rectangle,
    dt: int,
    i: int,
)
    requires
        0 <= i,
    ensures
        ({
            let res = spec_collisions_from(balls, bricks, paddle, field, dt, i);
            forall|j: int|
                0 <= j < balls.len() ==> (#[trigger] res.0[j]).position == if j < i {
                    balls[j].position
                } else {
                    spec_advance_ball(balls[j], dt).position
                }
        }),
    decreases balls.len() - i,
{
    lemma_collisions_preserve_ball_count(balls, bricks, paddle, field, dt, i);
    if i < 0 || i >= balls.len() {
    } else {
        let b1 = spec_advance_ball(balls[i], dt);
        let cb = spec_collide_ball(b1, bricks, paddle, field);
        let balls2 = balls.update(i, cb.0);
        assert(cb.0.position == b1.position);
        assert(spec_collisions_from(balls, bricks, paddle, field, dt, i)
            == spec_collisions_from(balls2, cb.1, paddle, field, dt, i + 1));
        lemma_collisions_preserve_positions(balls2, cb.1, paddle, field, dt, i + 1);
        let fin = spec_collisions_from(balls, bricks, paddle, field, dt, i);
        assert forall|j: int|
            0 <= j < balls.len() implies (#[trigger] fin.0[j]).position == if j < i {
            balls[j].position
        } else {
            spec_advance_ball(balls[j], dt).position
        } by {
            if j == i {
                assert(balls2[j] == cb.0);
                assert(fin.0[j].position == balls2[j].position);
            } else {
                assert(balls2[j] == balls[j]);
            }
        }
    }
}

/// No contact at all for one ball: neither the paddle, nor any brick,
/// nor a wall.
pub open spec fn spec_no_contact(
    b: Ball,
    bricks: Seq<Brick>,
    paddle: Paddle,
    field: Rectangle,
) -> bool {
    &&& spec_paddle_collision(paddle, b) is None
    &&& spec_brick_collision_from(bricks, b, 0) is None
    &&& spec_wall_collision(field, b) is None
}

/// When no ball from index `i` on touches anything, the collision pass
/// is plain advancement: every such ball moves by exactly its velocity
/// times the elapsed time and the bricks stay as they are.
pub proof fn lemma_collisions_no_contact(
    balls: Seq<Ball>,
    bricks: Seq<Brick>,
    paddle: Paddle,
    field: Rectangle,
    dt: int,
    i: int,
)
    requires
        0 <= i,
        forall|j: int|
            i <= j < balls.len() ==> spec_no_contact(
                spec_advance_ball(#[trigger] balls[j], dt),
                bricks,
                paddle,
                field,
            ),
    ensures
        ({
            let res = spec_collisions_from(balls, bricks, paddle, field, dt, i);
            &&& res.1 == bricks
            &&& res.0.len() == balls.len()
            &&& forall|j: int|
                0 <= j < balls.len() ==> #[trigger] res.0[j] == if j < i {
                    balls[j]
                } else {
                    spec_advance_ball(balls[j], dt)
                }
        }),
    decreases balls.len() - i,
{
    if i < 0 || i >= balls.len() {
    } else {
        let b1 = spec_advance_ball(balls[i], dt);
        let cb = spec_collide_ball(b1, bricks, paddle, field);
        assert(spec_no_contact(b1, bricks, paddle, field));
        assert(cb.0 == b1 && cb.1 == bricks);
        let balls2 = balls.update(i, b1);
        assert(spec_collisions_from(balls, bricks, paddle, field, dt, i)
            == spec_collisions_from(balls2, bricks, paddle, field, dt, i + 1));
        assert forall|j: int|
            i + 1 <= j < balls2.len() implies spec_no_contact(
            spec_advance_ball(#[trigger] balls2[j], dt),
            bricks,
            paddle,
            field,
        ) by {
            assert(balls2[j] == balls[j]);
        }
        lemma_collisions_no_contact(balls2, bricks, paddle, field, dt, i + 1);
        let fin = spec_collisions_from(balls, bricks, paddle, field, dt, i);
        assert forall|j: int|
            0 <= j < balls.len() implies #[trigger] fin.0[j] == if j < i {
            balls[j]
        } else {
            spec_advance_ball(balls[j], dt)
        } by {
            if j == i {
                assert(balls2[j] == b1);
                assert(fin.0[j] == balls2[j]);
            } else {
                assert(balls2[j] == balls[j]);
            }
        }
    }
}

/// When every ball from index `i` on is still on screen, the loss pass
/// keeps them all, in order.
pub proof fn lemma_keep_all(balls: Seq<Ball>, i: int)
    requires
        0 <= i <= balls.len(),
        forall|j: int| i <= j < balls.len() ==> (#[trigger] balls[j]).position.center.y >= 0,
    ensures
        spec_keep_from(balls, i) == balls.subrange(i, balls.len() as int),
    decreases balls.len() - i,
{
    if i == balls.len() {
        assert(spec_keep_from(balls, i) =~= balls.subrange(i, balls.len() as int));
    } else {
        lemma_keep_all(balls, i + 1);
        assert(seq![balls[i]] + balls.subrange(i + 1, balls.len() as int) =~= balls.subrange(
            i,
            balls.len() as int,
        ));
    }
}

/// When every ball from index `i` on has fallen below the screen, the
/// loss pass keeps none.
pub proof fn lemma_keep_none(balls: Seq<Ball>, i: int)
    requires
        forall|j: int| i <= j < balls.len() ==> (#[trigger] balls[j]).position.center.y < 0,
    ensures
        spec_keep_from(balls, i).len() == 0,
    decreases balls.len() - i,
{
    if i < 0 || i >= balls.len() {
    } else {
        lemma_keep_none(balls, i + 1);
    }
}

/// The paddle as the movement step sees it: its velocity follows the
/// intent, then it advances and is clamped to the field.
pub open spec fn spec_tick_paddle(
    m: GameModel,
    timestamp_ms: i64,
    last_ms: i64,
    ks: KeyboardState,
) -> Paddle {
    spec_paddle_advance(
        Paddle { position: m.paddle.position, vector: spec_input_vector(ks) },
        timestamp_ms - last_ms,
        spec_left(m.field),
        spec_right(m.field),
    )
}

/// A fire intent in the stopped state starts the simulation: the tick
/// ends in the running state stamped with its own timestamp.
pub proof fn lemma_fire_starts_running(m: GameModel, timestamp_ms: i64, ks: KeyboardState)
    requires
        m.time_state == TimeState::Stopped,
        ks.fire,
        m.lives_left != 0,
        m.balls.len() >= 1,
        forall|j: int| 0 <= j < m.balls.len() ==> (#[trigger] m.balls[j]).position.center.y >= 0,
    ensures
        spec_tick(m, timestamp_ms, ks).time_state == (TimeState::Running {
            last_update_time_ms: timestamp_ms,
        }),
        spec_tick(m, timestamp_ms, ks).lives_left == m.lives_left,
        spec_tick(m, timestamp_ms, ks).balls.len() == m.balls.len(),
{
    let paddle2 = spec_tick_paddle(m, timestamp_ms, timestamp_ms, ks);
    let res = spec_collisions_from(m.balls, m.bricks, paddle2, m.field, 0, 0);
    lemma_collisions_preserve_positions(m.balls, m.bricks, paddle2, m.field, 0, 0);
    lemma_collisions_preserve_ball_count(m.balls, m.bricks, paddle2, m.field, 0, 0);
    assert forall|j: int|
        0 <= j < res.0.len() implies (#[trigger] res.0[j]).position.center.y >= 0 by {
        assert(spec_advance_ball(m.balls[j], 0).position.center.y == m.balls[j].position.center.y);
    }
    lemma_keep_all(res.0, 0);
    assert(spec_keep_from(res.0, 0).len() == res.0.len());
}

/// From the freshly made game, a fire intent alone takes the stopped
/// state into the running state.
pub proof fn lemma_initial_fire_starts_running(timestamp_ms: i64, ks: KeyboardState)
    requires
        ks.fire,
    ensures
        spec_tick(spec_initial_model(), timestamp_ms, ks).time_state == (TimeState::Running {
            last_update_time_ms: timestamp_ms,
        }),
        spec_tick(spec_initial_model(), timestamp_ms, ks).lives_left == 3,
{
    let m = spec_initial_model();
    lemma_initial_well_formed();
    assert forall|j: int|
        0 <= j < m.balls.len() implies (#[trigger] m.balls[j]).position.center.y >= 0 by {
        assert(m.balls[j] == m.balls[0]);
    }
    lemma_fire_starts_running(m, timestamp_ms, ks);
}

/// When no ball touches anything and none is lost, a running tick is
/// pure uniform motion: every ball advances by exactly its velocity
/// times the elapsed time, nothing else changes, and the clock is
/// stamped.
pub proof fn lemma_tick_advances_balls_freely(
    m: GameModel,
    last_ms: i64,
    timestamp_ms: i64,
    ks: KeyboardState,
)
    requires
        m.time_state == (TimeState::Running { last_update_time_ms: last_ms }),
        m.lives_left != 0,
        m.balls.len() >= 1,
        forall|j: int|
            0 <= j < m.balls.len() ==> spec_no_contact(
                spec_advance_ball(#[trigger] m.balls[j], timestamp_ms - last_ms),
                m.bricks,
                spec_tick_paddle(m, timestamp_ms, last_ms, ks),
                m.field,
            ),
        forall|j: int|
            0 <= j < m.balls.len() ==> spec_advance_ball(
                #[trigger] m.balls[j],
                timestamp_ms - last_ms,
            ).position.center.y >= 0,
    ensures
        ({
            let m2 = spec_tick(m, timestamp_ms, ks);
            &&& m2.balls.len() == m.balls.len()
            &&& forall|j: int|
                0 <= j < m.balls.len() ==> #[trigger] m2.balls[j] == spec_advance_ball(
                    m.balls[j],
                    timestamp_ms - last_ms,
                )
            &&& m2.bricks == m.bricks
            &&& m2.lives_left == m.lives_left
            &&& m2.time_state == (TimeState::Running { last_update_time_ms: timestamp_ms })
        }),
{
    let dt = timestamp_ms - last_ms;
    let paddle2 = spec_tick_paddle(m, timestamp_ms, last_ms, ks);
    let res = spec_collisions_from(m.balls, m.bricks, paddle2, m.field, dt, 0);
    lemma_collisions_no_contact(m.balls, m.bricks, paddle2, m.field, dt, 0);
    assert forall|j: int|
        0 <= j < res.0.len() implies (#[trigger] res.0[j]).position.center.y >= 0 by {
        assert(res.0[j] == spec_advance_ball(m.balls[j], dt));
    }
    lemma_keep_all(res.0, 0);
    assert(spec_keep_from(res.0, 0) =~= res.0);
}

/// Losing the last ball costs exactly one life, restores the initial
/// single ball and paddle, and stops the simulation — or ends the game
/// when it was the last life.
pub proof fn lemma_life_loss(m: GameModel, last_ms: i64, timestamp_ms: i64, ks: KeyboardState)
    requires
        m.time_state == (TimeState::Running { last_update_time_ms: last_ms }),
        m.lives_left >= 1,
        ({
            let res = spec_collisions_from(
                m.balls,
                m.bricks,
                spec_tick_paddle(m, timestamp_ms, last_ms, ks),
                m.field,
                timestamp_ms - last_ms,
                0,
            );
            forall|j: int|
                0 <= j < res.0.len() ==> (#[trigger] res.0[j]).position.center.y < 0
        }),
    ensures
        ({
            let m2 = spec_tick(m, timestamp_ms, ks);
            &&& m2.lives_left == m.lives_left - 1
            &&& m2.balls == spec_initial_balls()
            &&& m2.paddle == spec_initial_paddle()
            &&& m2.time_state == if m.lives_left == 1 {
                TimeState::GameOver
            } else {
                TimeState::Stopped
            }
        }),
{
    let dt = timestamp_ms - last_ms;
    let paddle2 = spec_tick_paddle(m, timestamp_ms, last_ms, ks);
    let res = spec_collisions_from(m.balls, m.bricks, paddle2, m.field, dt, 0);
    lemma_keep_none(res.0, 0);
}

/// In the terminal state a tick changes nothing but the paddle's
/// velocity: fire intents no longer restart the game.
pub proof fn lemma_game_over_absorbs(m: GameModel, timestamp_ms: i64, ks: KeyboardState)
    requires
        m.time_state == TimeState::GameOver,
    ensures
        ({
            let m2 = spec_tick(m, timestamp_ms, ks);
            &&& m2.time_state == TimeState::GameOver
            &&& m2.balls == m.balls
            &&& m2.bricks == m.bricks
            &&& m2.field == m.field
            &&& m2.lives_left == m.lives_left
            &&& m2.paddle.position == m.paddle.position
            &&& m2.paddle.vector == spec_input_vector(ks)
        }),
{
}

/// A tick preserves the structural invariant: lives stay nonnegative,
/// zero lives always coincides with the terminal state, and outside the
/// terminal state at least one ball remains.
pub proof fn lemma_tick_preserves_inv(m: GameModel, timestamp_ms: i64, ks: KeyboardState)
    requires
        spec_game_inv(m),
    ensures
        spec_game_inv(spec_tick(m, timestamp_ms, ks)),
{
    match m.time_state {
        TimeState::GameOver => {},
        TimeState::Stopped => {
            if ks.fire {
                lemma_movement_preserves_inv(m, timestamp_ms, timestamp_ms, ks);
            }
        },
        TimeState::Running { last_update_time_ms } => {
            lemma_movement_preserves_inv(m, last_update_time_ms, timestamp_ms, ks);
        },
    }
}

proof fn lemma_movement_preserves_inv(m: GameModel, last_ms: i64, timestamp_ms: i64, ks: KeyboardState)
    requires
        spec_game_inv(m),
        !(m.time_state is GameOver),
    ensures
        ({
            let m1 = GameModel {
                balls: m.balls,
                bricks: m.bricks,
                field: m.field,
                paddle: Paddle { position: m.paddle.position, vector: spec_input_vector(ks) },
                time_state: TimeState::Running { last_update_time_ms: last_ms },
                lives_left: m.lives_left,
            };
            spec_game_inv(spec_execute_movement(m1, timestamp_ms, last_ms))
        }),
{
    let dt = timestamp_ms - last_ms;
    let paddle2 = spec_tick_paddle(m, timestamp_ms, last_ms, ks);
    lemma_collisions_preserve_ball_count(m.balls, m.bricks, paddle2, m.field, dt, 0);
}

} // verus!
