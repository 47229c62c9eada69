//! One tick of a run, and what the keys and buttons do to the state of the
//! game.
//!
//! The caller polls the input, turns the camera, plays the sounds and draws;
//! this module decides what happens to the snake, the food and the state.

use vstd::prelude::*;
use crate::food::FoodFactory;
use crate::food::FoodFactoryView;
use crate::food::FoodVariant;
use crate::food::default_front;
use crate::food::default_up;
use crate::score::Score;
use crate::snake::Shnek;
use crate::snake::ShnekHead;
use crate::snake::ShnekView;
use crate::snake::lemma_grown_from_empty;
use crate::snake::POOP_SIZE;
use crate::toroidal::Vector3;
use crate::toroidal::SCALE;

verus! {

/// What the screen shows.
#[derive(Clone, Copy, Debug, PartialEq, Eq, Structural)]
pub enum GameState {
    MainMenu,
    Running,
    Paused,
    GameOver,
    Score,
}

impl GameState {
    /// The state that the pause key leads to: it pauses and resumes a run,
    /// leaves the score list, and does nothing elsewhere.
    pub open spec fn spec_toggled(self) -> GameState {
        match self {
            GameState::MainMenu => GameState::MainMenu,
            GameState::Running => GameState::Paused,
            GameState::Paused => GameState::Running,
            GameState::GameOver => GameState::GameOver,
            GameState::Score => GameState::GameOver,
        }
    }

    /// The state that the pause key leads to.
    pub fn toggled(self) -> (next: GameState)
        ensures
            next == self.spec_toggled(),
    {
        match self {
            GameState::MainMenu => GameState::MainMenu,
            GameState::Running => GameState::Paused,
            GameState::Paused => GameState::Running,
            GameState::GameOver => GameState::GameOver,
            GameState::Score => GameState::GameOver,
        }
    }
}

/// What the caller has to make audible after a tick.
#[derive(Clone, Copy, Debug, PartialEq, Eq, Structural)]
pub struct TickOutcome {
    /// The head ran into the body.
    pub collided: bool,
    /// The snake ate something.
    pub eaten: bool,
}

/// The snake after the movement of one tick: it turns to `forward` and `up`,
/// moves once for `dt` milliseconds, at double speed while the boost is on,
/// and pays its boost debt if it is due and can be paid.
pub open spec fn spec_moved_in_tick(
    player: ShnekView,
    forward: Vector3,
    up: Vector3,
    dt: nat,
    boost: bool,
) -> ShnekView {
    let turned = ShnekView { head: ShnekHead { direction: forward, up, ..player.head }, ..player };
    let moved = turned.boost_moved(dt, boost);
    if moved.can_pay_boost(player.start_length) {
        moved.boost_paid()
    } else {
        moved
    }
}

/// The factory after the movement of one tick: it has gained a Poop where
/// the tail was if the snake paid boost debt.
pub open spec fn spec_pooped_in_tick(
    factory: FoodFactoryView,
    player: ShnekView,
    forward: Vector3,
    up: Vector3,
    dt: nat,
    boost: bool,
) -> FoodFactoryView {
    let turned = ShnekView { head: ShnekHead { direction: forward, up, ..player.head }, ..player };
    let moved = turned.boost_moved(dt, boost);
    if moved.can_pay_boost(player.start_length) {
        factory.spawned(
            moved.segments.last().position,
            POOP_SIZE,
            1,
            FoodVariant::Poop,
            default_front(),
            default_up(),
            moved.time_moving as u64,
        )
    } else {
        factory
    }
}

/// Whether the movement of one tick ends the run: boost debt is due that
/// the snake cannot pay, or the head runs into the body.
pub open spec fn spec_run_ends(
    player: ShnekView,
    forward: Vector3,
    up: Vector3,
    dt: nat,
    boost: bool,
) -> bool {
    let turned = ShnekView { head: ShnekHead { direction: forward, up, ..player.head }, ..player };
    let moved = turned.boost_moved(dt, boost);
    (moved.boost_due() && !moved.can_pay_boost(player.start_length)) || spec_moved_in_tick(
        player,
        forward,
        up,
        dt,
        boost,
    ).tail_collision()
}

/// Plays one tick of `dt` milliseconds while the game is running; in any
/// other state nothing happens.
///
/// In order: the snake turns and moves once, which records one pose of the
/// head; boost debt is collected; the tail collision is checked; and the
/// food gets its collision pass, whose nearest distance is stored in
/// `food_distance`. The run is over when boost debt could not be paid or the
/// head hit the body.
pub fn running(
    game_state: &mut GameState,
    player: &mut Shnek,
    food_factory: &mut FoodFactory,
    forward: Vector3,
    up: Vector3,
    dt: u32,
    boost: bool,
    food_distance: &mut i64,
) -> (outcome: TickOutcome)
    requires
        old(player)@.wf(),
        old(food_factory)@.wf(),
        forward.within(SCALE as int),
        up.within(SCALE as int),
        old(player)@.time_moving + 2 * dt <= u64::MAX,
    ensures
        *old(game_state) != GameState::Running ==> {
            &&& *final(game_state) == *old(game_state)
            &&& final(player)@ == old(player)@
            &&& final(food_factory)@ == old(food_factory)@
            &&& *final(food_distance) == *old(food_distance)
            &&& outcome == (TickOutcome { collided: false, eaten: false })
        },
        *old(game_state) == GameState::Running ==> {
            &&& spec_pooped_in_tick(
                old(food_factory)@,
                old(player)@,
                forward,
                up,
                dt as nat,
                boost,
            ).passed(
                final(food_factory)@,
                spec_moved_in_tick(old(player)@, forward, up, dt as nat, boost),
                final(player)@,
                (*final(food_distance), outcome.eaten),
            )
            &&& outcome.collided == spec_moved_in_tick(
                old(player)@,
                forward,
                up,
                dt as nat,
                boost,
            ).tail_collision()
            &&& *final(game_state) == if spec_run_ends(old(player)@, forward, up, dt as nat, boost) {
                GameState::GameOver
            } else {
                GameState::Running
            }
        },
        final(player)@.wf(),
        final(food_factory)@.wf(),
{
    let mut outcome = TickOutcome { collided: false, eaten: false };
    if *game_state == GameState::Running {
        player.set_direction(forward, up);
        player.check_boost_and_move(dt, boost);
        let start_length: usize = player.get_start_length();
        if player.check_boost_time(food_factory, start_length) {
            *game_state = GameState::GameOver;
        }
        if player.check_tail_collision() {
            outcome.collided = true;
            *game_state = GameState::GameOver;
        }
        let (distance, eaten): (i64, bool) = food_factory.check_food_collision(player);
        *food_distance = distance;
        outcome.eaten = eaten;
    }
    outcome
}

/// Starts a new run: the snake is back at the origin with its starting
/// number of segments, the food is as at the start, the score of the run is
/// unrecorded, and the game is running.
pub fn restart(
    game_state: &mut GameState,
    player: &mut Shnek,
    food_factory: &mut FoodFactory,
    score_file: &mut Score,
)
    requires
        old(player)@.wf(),
    ensures
        *final(game_state) == GameState::Running,
        final(player)@ == old(player)@.restarted().grown(old(player)@.start_length),
        final(player)@.segments.len() == old(player)@.start_length,
        final(player)@.wf(),
        final(food_factory)@ == FoodFactoryView::initial(),
        final(food_factory)@.wf(),
        final(score_file)@.file == old(score_file)@.file,
        final(score_file)@.do_write,
{
    player.reset();
    food_factory.reset();
    score_file.reset();
    let start_length: usize = player.get_start_length();
    let ghost fresh = player@;
    let mut added: usize = 0;
    while added < start_length
        invariant
            added <= start_length,
            start_length == fresh.start_length,
            fresh.segments.len() == 0,
            player@ == fresh.grown(added as nat),
            player@.wf(),
        decreases start_length - added,
    {
        player.add_segment();
        added += 1;
    }
    proof {
        lemma_grown_from_empty(fresh, start_length as nat);
    }
    *game_state = GameState::Running;
}

} // verus!
