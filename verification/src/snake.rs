//! The snake: a head that moves through the cube and a chain of segments that
//! replays the head's past path.
//!
//! Times are whole milliseconds. Every tick the head's pose is appended to a
//! history; segment `i` then takes the pose the head had `head_lag + i *
//! spacing_lag` milliseconds ago, or the oldest recorded pose while the
//! history is still too short.

use vstd::prelude::*;
use std::collections::VecDeque;
use crate::toroidal::Vector3;
use crate::toroidal::SCALE;
use crate::toroidal::SPACE_SIZE;
use crate::toroidal::vec3;
use crate::toroidal::advance;
use crate::toroidal::shortest_difference;
use crate::toroidal::modulus;
use crate::toroidal::negated;
use crate::toroidal::normalize;
use crate::toroidal::scaled;
use crate::toroidal::displaced;
use crate::toroidal::lemma_displaced_plain;
use crate::toroidal::lemma_normalize_within;
use crate::toroidal::lemma_rescale_bound;
use crate::toroidal::spec_advance;
use crate::toroidal::spec_shortest_difference;
use crate::toroidal::spec_modulus_vec3;
use crate::toroidal::spec_negated;
use crate::toroidal::spec_normalize;
use crate::toroidal::spec_scaled;
use crate::toroidal::spec_displaced;
use crate::toroidal::mod_distance;
use crate::toroidal::spec_mod_distance;
use crate::food::FoodFactory;
use crate::food::FoodVariant;
use crate::food::default_front;
use crate::food::default_up;

verus! {

/// Arc length between two neighbouring segments.
pub const SPACING: i64 = 10_000;

/// Arc length between the head and the first segment.
pub const HEAD_SPACE: i64 = 10_000;

/// Speed of a new snake, in fixed-point steps per second.
pub const DEFAULT_SPEED: u32 = 10_000;

/// Milliseconds in a second.
pub const MILLIS: u64 = 1000;

/// Milliseconds at the start of a run during which the tail does no harm.
pub const SPAWN_IMMUNITY: u64 = 2_000;

/// Milliseconds of boosting that cost one segment.
pub const BOOST_LIMIT: u64 = 3_000;

/// A segment closer to the head than this (eight tenths of the spacing) ends
/// the run.
pub const TAIL_COLLISION_DISTANCE: i64 = 8_000;

/// Size of the food that a boosting snake leaves behind.
pub const POOP_SIZE: i64 = 3_000;

/// The head: where it is, where it is going, and which way is up.
#[derive(Clone, Copy, Debug, PartialEq, Eq, Structural)]
pub struct ShnekHead {
    pub position: Vector3,
    pub direction: Vector3,
    pub up: Vector3,
}

impl ShnekHead {
    /// The head lies inside the cube and its two axes are at most one world
    /// unit long.
    pub open spec fn is_valid(self) -> bool {
        &&& self.position.is_canonical(SPACE_SIZE as int)
        &&& self.direction.within(SCALE as int)
        &&& self.up.within(SCALE as int)
    }

    /// A resting head at `(x, y, z)` with the z axis up.
    pub fn new(x: i64, y: i64, z: i64) -> (head: Self)
        ensures
            head == (ShnekHead {
                position: Vector3 { x, y, z },
                direction: Vector3 { x: 0, y: 0, z: 0 },
                up: Vector3 { x: 0, y: 0, z: SCALE },
            }),
    {
        ShnekHead { position: vec3(x, y, z), direction: vec3(0, 0, 0), up: vec3(0, 0, SCALE) }
    }

    /// Moves `distance` steps along the current direction, wrapping around the
    /// faces of the cube.
    pub fn move_forward(&mut self, distance: i64)
        ensures
            final(self).position == spec_advance(
                old(self).position,
                old(self).direction,
                distance as int,
            ),
            final(self).position.is_canonical(SPACE_SIZE as int),
            final(self).direction == old(self).direction,
            final(self).up == old(self).up,
    {
        self.position = advance(self.position, self.direction, distance);
    }

    /// Puts the head at `(x, y, z)`.
    pub fn set_position(&mut self, x: i64, y: i64, z: i64)
        ensures
            final(self).position == (Vector3 { x, y, z }),
            final(self).direction == old(self).direction,
            final(self).up == old(self).up,
    {
        self.position = vec3(x, y, z);
    }

    /// Turns the head.
    pub fn set_direction(&mut self, d: Vector3, up: Vector3)
        ensures
            final(self).position == old(self).position,
            final(self).direction == d,
            final(self).up == up,
    {
        self.direction = d;
        self.up = up;
    }

    /// The way the head is going.
    pub fn get_direction(&self) -> (d: Vector3)
        ensures
            d == self.direction,
    {
        self.direction
    }
}

/// One link of the body.
#[derive(Clone, Copy, Debug, PartialEq, Eq, Structural)]
pub struct ShnekSegment {
    pub position: Vector3,
    pub forward: Vector3,
    pub up: Vector3,
}

impl ShnekSegment {
    /// The two axes of the segment are at most one world unit long. Its
    /// position is any point that names its place: it need not lie inside
    /// the cube.
    pub open spec fn is_valid(self) -> bool {
        &&& self.forward.within(SCALE as int)
        &&& self.up.within(SCALE as int)
    }

    /// A segment with the given pose.
    pub fn new(position: Vector3, forward: Vector3, up: Vector3) -> (segment: Self)
        ensures
            segment == (ShnekSegment { position, forward, up }),
    {
        ShnekSegment { position, forward, up }
    }

    /// Moves the segment.
    pub fn set_position(&mut self, position: Vector3)
        ensures
            *final(self) == (ShnekSegment { position, ..*old(self) }),
    {
        self.position = position;
    }

    /// Turns the segment.
    pub fn set_direction(&mut self, direction: Vector3, up: Vector3)
        ensures
            *final(self) == (ShnekSegment { forward: direction, up, ..*old(self) }),
    {
        self.forward = direction;
        self.up = up;
    }

    /// Where the segment is.
    pub fn get_position(&self) -> (position: Vector3)
        ensures
            position == self.position,
    {
        self.position
    }
}

/// The head's pose at one moment of the run.
#[derive(Clone, Copy, Debug, PartialEq, Eq, Structural)]
pub struct HeadSnapshot {
    pub position: Vector3,
    pub direction: Vector3,
    pub up: Vector3,
    /// Milliseconds since the run began.
    pub time: u64,
}

impl HeadSnapshot {
    /// The recorded pose lies inside the cube and its two axes are at most
    /// one world unit long.
    pub open spec fn is_valid(self) -> bool {
        &&& self.position.is_canonical(SPACE_SIZE as int)
        &&& self.direction.within(SCALE as int)
        &&& self.up.within(SCALE as int)
    }

    /// The segment that replays this pose.
    pub open spec fn as_segment(self) -> ShnekSegment {
        ShnekSegment { position: self.position, forward: self.direction, up: self.up }
    }
}

/// Index of the latest snapshot of `history` taken at or before `time`, or 0
/// (the oldest snapshot) when there is none.
pub open spec fn lookup_index(history: Seq<HeadSnapshot>, time: int) -> int
    decreases history.len(),
{
    if history.len() <= 1 {
        0
    } else if history.last().time <= time {
        history.len() - 1
    } else {
        lookup_index(history.drop_last(), time)
    }
}

/// The lookup finds the latest snapshot that is not younger than `time`,
/// and falls back on the oldest snapshot only when every snapshot is younger.
pub proof fn lemma_lookup_index_latest(history: Seq<HeadSnapshot>, time: int)
    requires
        history.len() > 0,
    ensures
        0 <= lookup_index(history, time) < history.len(),
        forall|k: int|
            lookup_index(history, time) < k < history.len() ==> (#[trigger] history[k]).time > time,
        lookup_index(history, time) > 0 ==> history[lookup_index(history, time)].time <= time,
    decreases history.len(),
{
    if history.len() > 1 && history.last().time > time {
        let shorter = history.drop_last();
        lemma_lookup_index_latest(shorter, time);
        assert forall|k: int| lookup_index(history, time) < k < history.len() implies (
        #[trigger] history[k]).time > time by {
            if k < shorter.len() {
                assert(shorter[k] == history[k]);
            }
        }
        assert(shorter[lookup_index(shorter, time)] == history[lookup_index(shorter, time)]);
    }
}

/// An index behind which every snapshot is younger than `time`, and which
/// is 0 or holds a snapshot that is not, is the one the lookup finds.
pub proof fn lemma_lookup_index_is(history: Seq<HeadSnapshot>, time: int, j: int)
    requires
        0 <= j < history.len(),
        forall|k: int| j < k < history.len() ==> (#[trigger] history[k]).time > time,
        j == 0 || history[j].time <= time,
    ensures
        lookup_index(history, time) == j,
    decreases history.len(),
{
    if history.len() > 1 && j < history.len() - 1 {
        let shorter = history.drop_last();
        assert(history.last() == history[history.len() - 1]);
        assert forall|k: int| j < k < shorter.len() implies (#[trigger] shorter[k]).time > time by {
            assert(shorter[k] == history[k]);
        }
        assert(shorter[j] == history[j]);
        lemma_lookup_index_is(shorter, time, j);
    }
}

/// What a [`Shnek`] holds, as plain values.
pub struct ShnekView {
    /// The body, from the link behind the head to the tail.
    pub segments: Seq<ShnekSegment>,
    pub head: ShnekHead,
    /// Every pose the head has had since the run began, oldest first.
    pub head_positions: Seq<HeadSnapshot>,
    /// Fixed-point steps per second.
    pub speed: nat,
    /// Milliseconds since the run began.
    pub time_moving: nat,
    /// Milliseconds of boosting that have not been paid for yet.
    pub time_boosted: nat,
    /// Number of segments a fresh snake is given.
    pub start_length: nat,
}

impl ShnekView {
    /// The invariant of a snake: a positive speed, valid poses everywhere, a
    /// history in time order that does not reach into the future, and no more
    /// boost debt than time has passed.
    pub open spec fn wf(self) -> bool {
        &&& self.speed > 0
        &&& self.head.is_valid()
        &&& forall|i: int| 0 <= i < self.segments.len() ==> (#[trigger] self.segments[i]).is_valid()
        &&& forall|i: int|
            0 <= i < self.head_positions.len() ==> (#[trigger] self.head_positions[i]).is_valid()
                && self.head_positions[i].time <= self.time_moving
        &&& forall|i: int, j: int|
            0 <= i <= j < self.head_positions.len() ==> self.head_positions[i].time
                <= self.head_positions[j].time
        &&& self.time_boosted <= self.time_moving
    }

    /// A snake at the origin that has not moved yet.
    pub open spec fn initial(start_length: nat) -> ShnekView {
        ShnekView {
            segments: Seq::empty(),
            head: ShnekHead {
                position: Vector3 { x: 0, y: 0, z: 0 },
                direction: Vector3 { x: 0, y: 0, z: 0 },
                up: Vector3 { x: 0, y: 0, z: SCALE },
            },
            head_positions: Seq::empty(),
            speed: DEFAULT_SPEED as nat,
            time_moving: 0,
            time_boosted: 0,
            start_length,
        }
    }

    /// The segment that [`Shnek::add_segment`] appends: one spacing behind
    /// the tail along the shortest line through the last two links, or one
    /// head space behind the head while there is no body. Its position is
    /// not wrapped, so a chain that grows out of the cube keeps its shape.
    pub open spec fn next_segment(self) -> ShnekSegment {
        if self.segments.len() == 0 {
            let back = spec_scaled(spec_normalize(self.head.direction), HEAD_SPACE as int);
            ShnekSegment {
                position: spec_displaced(self.head.position, spec_negated(back)),
                forward: self.head.direction,
                up: self.head.up,
            }
        } else {
            let last = self.segments.last();
            let before = if self.segments.len() < 2 {
                self.head.position
            } else {
                self.segments[self.segments.len() - 2].position
            };
            let trail = spec_normalize(spec_shortest_difference(last.position, before));
            let offset = spec_scaled(trail, SPACING as int);
            ShnekSegment {
                position: spec_displaced(last.position, offset),
                forward: spec_normalize(spec_negated(offset)),
                up: last.up,
            }
        }
    }

    /// The snake with one more segment at its tail.
    pub open spec fn with_segment(self) -> ShnekView {
        ShnekView { segments: self.segments.push(self.next_segment()), ..self }
    }

    /// The snake after `count` segments were added one by one.
    pub open spec fn grown(self, count: nat) -> ShnekView
        decreases count,
    {
        if count == 0 {
            self
        } else {
            self.grown((count - 1) as nat).with_segment()
        }
    }

    /// The snake without its tail segment; an empty body stays empty.
    pub open spec fn without_tail(self) -> ShnekView {
        if self.segments.len() == 0 {
            self
        } else {
            ShnekView { segments: self.segments.drop_last(), ..self }
        }
    }

    /// The snake after its tail was removed `count` times.
    pub open spec fn shrunk(self, count: nat) -> ShnekView
        decreases count,
    {
        if count == 0 {
            self
        } else {
            self.shrunk((count - 1) as nat).without_tail()
        }
    }

    /// Milliseconds the head needs to cover the spacing between two segments.
    pub open spec fn spacing_lag(self) -> int {
        (SPACING as int * MILLIS as int) / (self.speed as int)
    }

    /// Milliseconds the head needs to cover the gap to the first segment.
    pub open spec fn head_lag(self) -> int {
        (HEAD_SPACE as int * MILLIS as int) / (self.speed as int)
    }

    /// The moment whose head pose segment `i` replays now.
    pub open spec fn target_time(self, i: int) -> int {
        self.time_moving - i * self.spacing_lag() - self.head_lag()
    }

    /// The pose that the history assigns to segment `i`.
    pub open spec fn resolved_segment(self, i: int) -> ShnekSegment {
        self.head_positions[lookup_index(self.head_positions, self.target_time(i))].as_segment()
    }

    /// The snake after `dt` more milliseconds: the clock advances, the head
    /// moves `speed * dt` along its direction and wraps, its new pose joins
    /// the history, and every segment takes the pose the history assigns it.
    pub open spec fn moved(self, dt: nat) -> ShnekView {
        let head = ShnekHead {
            position: spec_advance(
                self.head.position,
                self.head.direction,
                (dt * self.speed) as int / (MILLIS as int),
            ),
            ..self.head
        };
        let snapshot = HeadSnapshot {
            position: head.position,
            direction: head.direction,
            up: head.up,
            time: (self.time_moving + dt) as u64,
        };
        let base = ShnekView {
            head,
            head_positions: self.head_positions.push(snapshot),
            time_moving: self.time_moving + dt,
            ..self
        };
        ShnekView {
            segments: Seq::new(self.segments.len(), |i: int| base.resolved_segment(i)),
            ..base
        }
    }

    /// Segments gained since the start of the run (negative after losses).
    pub open spec fn score(self) -> int {
        self.segments.len() - self.start_length
    }

    /// The score as a 32-bit number, saturated at the ends of its range.
    pub open spec fn spec_get_score(self) -> int {
        if self.score() > i32::MAX {
            i32::MAX as int
        } else if self.score() < i32::MIN {
            i32::MIN as int
        } else {
            self.score()
        }
    }

    /// Whether the head runs into the body: never during the spawn immunity,
    /// afterwards as soon as any segment is closer than the collision distance.
    pub open spec fn tail_collision(self) -> bool {
        self.time_moving >= SPAWN_IMMUNITY && exists|i: int|
            0 <= i < self.segments.len() && spec_mod_distance(
                self.head.position,
                (#[trigger] self.segments[i]).position,
            ) < TAIL_COLLISION_DISTANCE
    }

    /// The snake after a tick of `dt` milliseconds: with the boost on it
    /// covers twice the time and runs up `dt` of boost debt, otherwise it
    /// moves normally and the debt stays as it is.
    pub open spec fn boost_moved(self, dt: nat, boost: bool) -> ShnekView {
        if boost {
            ShnekView { time_boosted: self.time_boosted + dt, ..self.moved(2 * dt) }
        } else {
            self.moved(dt)
        }
    }

    /// Whether the boost debt is due.
    pub open spec fn boost_due(self) -> bool {
        self.time_boosted > BOOST_LIMIT
    }

    /// Whether the snake can pay its boost debt with a segment.
    pub open spec fn can_pay_boost(self, start_len: nat) -> bool {
        self.boost_due() && self.segments.len() > start_len
    }

    /// The snake after it paid one unit of boost debt with its tail segment.
    pub open spec fn boost_paid(self) -> ShnekView {
        ShnekView {
            segments: self.segments.drop_last(),
            time_boosted: (self.time_boosted - BOOST_LIMIT) as nat,
            ..self
        }
    }

    /// The snake as a restart leaves it: no body, no history, clocks at
    /// zero, the head at the origin and heading along the x axis.
    pub open spec fn restarted(self) -> ShnekView {
        ShnekView {
            segments: Seq::empty(),
            head: ShnekHead {
                position: Vector3 { x: 0, y: 0, z: 0 },
                direction: Vector3 { x: SCALE, y: 0, z: 0 },
                up: Vector3 { x: 0, y: 0, z: SCALE },
            },
            head_positions: Seq::empty(),
            time_moving: 0,
            time_boosted: 0,
            ..self
        }
    }
}

/// The first segment of a snake lies exactly one head space behind the
/// head, against its direction, whether or not that is inside the cube.
pub proof fn lemma_first_segment_place(snake: ShnekView)
    requires
        snake.wf(),
        snake.segments.len() == 0,
    ensures
        snake.next_segment().position.x == snake.head.position.x - spec_scaled(
            spec_normalize(snake.head.direction),
            HEAD_SPACE as int,
        ).x,
        snake.next_segment().position.y == snake.head.position.y - spec_scaled(
            spec_normalize(snake.head.direction),
            HEAD_SPACE as int,
        ).y,
        snake.next_segment().position.z == snake.head.position.z - spec_scaled(
            spec_normalize(snake.head.direction),
            HEAD_SPACE as int,
        ).z,
        snake.next_segment().forward == snake.head.direction,
        snake.next_segment().up == snake.head.up,
{
    let unit = spec_normalize(snake.head.direction);
    lemma_normalize_within(snake.head.direction);
    lemma_rescale_bound(unit.x as int, HEAD_SPACE as int, SCALE as int, SCALE as int);
    lemma_rescale_bound(unit.y as int, HEAD_SPACE as int, SCALE as int, SCALE as int);
    lemma_rescale_bound(unit.z as int, HEAD_SPACE as int, SCALE as int, SCALE as int);
    let back = spec_scaled(unit, HEAD_SPACE as int);
    lemma_displaced_plain(snake.head.position, spec_negated(back), HEAD_SPACE as int);
}

/// A further segment lies exactly one spacing behind the last one, along
/// the shortest line from the link before it, as long as the last one is
/// not at the very end of the 64-bit range.
pub proof fn lemma_next_segment_place(snake: ShnekView)
    requires
        snake.segments.len() > 0,
        snake.segments.last().position.within(i64::MAX - SPACING),
    ensures
        ({
            let last = snake.segments.last();
            let before = if snake.segments.len() < 2 {
                snake.head.position
            } else {
                snake.segments[snake.segments.len() - 2].position
            };
            let offset = spec_scaled(
                spec_normalize(spec_shortest_difference(last.position, before)),
                SPACING as int,
            );
            &&& snake.next_segment().position.x == last.position.x + offset.x
            &&& snake.next_segment().position.y == last.position.y + offset.y
            &&& snake.next_segment().position.z == last.position.z + offset.z
            &&& snake.next_segment().up == last.up
        }),
{
    let last = snake.segments.last();
    let before = if snake.segments.len() < 2 {
        snake.head.position
    } else {
        snake.segments[snake.segments.len() - 2].position
    };
    let trail = spec_normalize(spec_shortest_difference(last.position, before));
    lemma_normalize_within(spec_shortest_difference(last.position, before));
    lemma_rescale_bound(trail.x as int, SPACING as int, SCALE as int, SCALE as int);
    lemma_rescale_bound(trail.y as int, SPACING as int, SCALE as int, SCALE as int);
    lemma_rescale_bound(trail.z as int, SPACING as int, SCALE as int, SCALE as int);
    lemma_displaced_plain(last.position, spec_scaled(trail, SPACING as int), SPACING as int);
}

/// Growing changes nothing but the body, which gains exactly `count`
/// segments behind the ones it had.
pub proof fn lemma_grown_keeps(snake: ShnekView, count: nat)
    ensures
        snake.grown(count) == (ShnekView { segments: snake.grown(count).segments, ..snake }),
        snake.grown(count).segments.len() == snake.segments.len() + count,
        snake.segments.is_prefix_of(snake.grown(count).segments),
    decreases count,
{
    if count > 0 {
        lemma_grown_keeps(snake, (count - 1) as nat);
    }
}

/// A snake without a body that grows `count` times and never moves has
/// `count` segments.
pub proof fn lemma_grown_from_empty(snake: ShnekView, count: nat)
    requires
        snake.segments.len() == 0,
    ensures
        snake.grown(count).segments.len() == count,
{
    lemma_grown_keeps(snake, count);
}

/// Growing first `first` and then `second` times is growing `first + second` times.
pub proof fn lemma_grown_adds(snake: ShnekView, first: nat, second: nat)
    ensures
        snake.grown(first).grown(second) == snake.grown(first + second),
    decreases second,
{
    if second > 0 {
        lemma_grown_adds(snake, first, (second - 1) as nat);
    }
}

/// Shrinking changes nothing but the body, which loses its last `count`
/// segments, or all of them if it has fewer.
pub proof fn lemma_shrunk_keeps(snake: ShnekView, count: nat)
    ensures
        snake.shrunk(count) == (ShnekView { segments: snake.shrunk(count).segments, ..snake }),
        snake.shrunk(count).segments == snake.segments.take(
            if snake.segments.len() >= count {
                snake.segments.len() - count
            } else {
                0
            },
        ),
    decreases count,
{
    if count > 0 {
        lemma_shrunk_keeps(snake, (count - 1) as nat);
        let before = snake.shrunk((count - 1) as nat);
        if before.segments.len() > 0 {
            assert(before.segments.drop_last() =~= snake.segments.take(
                snake.segments.len() - count,
            ));
        } else {
            assert(before.segments =~= snake.segments.take(0));
        }
    } else {
        assert(snake.segments =~= snake.segments.take(snake.segments.len() as int));
    }
}

/// Shrinking first `first` and then `second` times is shrinking `first + second` times.
pub proof fn lemma_shrunk_adds(snake: ShnekView, first: nat, second: nat)
    ensures
        snake.shrunk(first).shrunk(second) == snake.shrunk(first + second),
    decreases second,
{
    if second > 0 {
        lemma_shrunk_adds(snake, first, (second - 1) as nat);
    }
}

/// During the spawn immunity there is no tail collision, whatever the
/// segments are and wherever they lie.
pub proof fn lemma_spawn_immunity(snake: ShnekView)
    requires
        snake.time_moving < SPAWN_IMMUNITY,
    ensures
        !snake.tail_collision(),
{
}

/// The snake of one run.
pub struct Shnek {
    segments: Vec<ShnekSegment>,
    head: ShnekHead,
    head_positions: VecDeque<HeadSnapshot>,
    speed: u32,
    time_moving: u64,
    time_boosted: u64,
    start_length: usize,
}

impl View for Shnek {
    type V = ShnekView;

    closed spec fn view(&self) -> ShnekView {
        ShnekView {
            segments: self.segments@,
            head: self.head,
            head_positions: self.head_positions@,
            speed: self.speed as nat,
            time_moving: self.time_moving as nat,
            time_boosted: self.time_boosted as nat,
            start_length: self.start_length as nat,
        }
    }
}

impl Shnek {
    /// A snake at the origin that has not moved yet and has no body.
    pub fn new(start_length: usize) -> (snake: Self)
        ensures
            snake@ == ShnekView::initial(start_length as nat),
            snake@.wf(),
    {
        Self {
            segments: Vec::new(),
            head: ShnekHead::new(0, 0, 0),
            head_positions: VecDeque::new(),
            speed: DEFAULT_SPEED,
            time_moving: 0,
            time_boosted: 0,
            start_length,
        }
    }

    /// Appends a segment behind the tail. Its pose is a first guess that the
    /// next move replaces.
    pub fn add_segment(&mut self)
        requires
            old(self)@.wf(),
        ensures
            final(self)@ == old(self)@.with_segment(),
            final(self)@.wf(),
    {
        let count: usize = self.segments.len();
        proof {
            if count > 0 {
                assert(self@.segments[count - 1].is_valid());
            }
            if count > 1 {
                assert(self@.segments[count - 2].is_valid());
            }
        }
        let new_segment = if count == 0 {
            let back = scaled(normalize(self.head.direction), HEAD_SPACE);
            ShnekSegment::new(
                displaced(self.head.position, negated(back)),
                self.head.direction,
                self.head.up,
            )
        } else {
            let last = self.segments[count - 1];
            let before = if count < 2 {
                self.head.position
            } else {
                self.segments[count - 2].position
            };
            let trail = normalize(shortest_difference(last.position, before));
            let offset = scaled(trail, SPACING);
            ShnekSegment::new(
                displaced(last.position, offset),
                normalize(negated(offset)),
                last.up,
            )
        };
        self.segments.push(new_segment);
        proof {
            assert(new_segment.is_valid());
            assert forall|i: int| 0 <= i < self@.segments.len() implies (
            #[trigger] self@.segments[i]).is_valid() by {
                if i < count {
                    assert(old(self)@.segments[i].is_valid());
                }
            }
        }
    }

    /// Removes the tail segment, if there is one.
    pub fn pop_segment(&mut self)
        ensures
            final(self)@ == old(self)@.without_tail(),
            old(self)@.wf() ==> final(self)@.wf(),
    {
        self.segments.pop();
        proof {
            if old(self)@.wf() {
                assert forall|i: int| 0 <= i < self@.segments.len() implies (
                #[trigger] self@.segments[i]).is_valid() by {
                    assert(old(self)@.segments[i].is_valid());
                }
            }
        }
    }

    /// Advances the run by `dt` milliseconds.
    fn step(&mut self, dt: u64)
        requires
            old(self)@.wf(),
            dt <= 2 * u32::MAX,
            old(self)@.time_moving + dt <= u64::MAX,
        ensures
            final(self)@ == old(self)@.moved(dt as nat),
            final(self)@.wf(),
    {
        assert(dt * self.speed <= 0x2_0000_0000 * 0x1_0000_0000) by (nonlinear_arith)
            requires
                dt <= 0x2_0000_0000,
                self.speed <= 0x1_0000_0000,
        ;
        let distance: u128 = (dt as u128) * (self.speed as u128) / (MILLIS as u128);
        self.time_moving = self.time_moving + dt;
        self.head.move_forward(distance as i64);
        self.head_positions.push_back(
            HeadSnapshot {
                position: self.head.position,
                direction: self.head.direction,
                up: self.head.up,
                time: self.time_moving,
            },
        );
        let ghost base = self@;
        let ghost history = self.head_positions@;
        let spacing_lag: i128 = ((SPACING as u64) * MILLIS / (self.speed as u64)) as i128;
        let head_lag: i128 = ((HEAD_SPACE as u64) * MILLIS / (self.speed as u64)) as i128;
        let now: i128 = self.time_moving as i128;
        let count: usize = self.segments.len();
        let mut cursor: usize = self.head_positions.len() - 1;
        let mut i: usize = 0;
        proof {
            assert forall|k: int| 0 <= k < history.len() implies (#[trigger] history[k]).is_valid()
                && history[k].time <= base.time_moving by {
                if k < history.len() - 1 {
                    assert(old(self)@.head_positions[k].is_valid());
                }
            }
        }
        while i < count
            invariant
                i <= count,
                count == base.segments.len(),
                self@ == (ShnekView { segments: self.segments@, ..base }),
                self.segments@.len() == count,
                self.head_positions@ == history,
                base.head_positions == history,
                history.len() > 0,
                now == base.time_moving,
                spacing_lag == base.spacing_lag(),
                head_lag == base.head_lag(),
                0 <= spacing_lag <= 10_000_000,
                0 <= head_lag <= 10_000_000,
                cursor < history.len(),
                forall|k: int|
                    cursor < k < history.len() ==> (#[trigger] history[k]).time > base.target_time(
                        i as int,
                    ),
                forall|k: int| 0 <= k < i ==> #[trigger] self.segments@[k] == base.resolved_segment(k),
                forall|k: int| 0 <= k < history.len() ==> (#[trigger] history[k]).is_valid(),
            decreases count - i,
        {
            assert(0 <= i * spacing_lag <= 0x1_0000_0000_0000_0000 * 10_000_000)
                by (nonlinear_arith)
                requires
                    0 <= i <= 0x1_0000_0000_0000_0000,
                    0 <= spacing_lag <= 10_000_000,
            ;
            let target: i128 = now - (i as i128) * spacing_lag - head_lag;
            while cursor > 0 && self.head_positions[cursor].time as i128 > target
                invariant
                    self.head_positions@ == history,
                    cursor < history.len(),
                    forall|k: int| cursor < k < history.len() ==> (#[trigger] history[k]).time > target,
                decreases cursor,
            {
                cursor -= 1;
            }
            let snapshot = self.head_positions[cursor];
            proof {
                lemma_lookup_index_is(history, target as int, cursor as int);
                assert(history[cursor as int].is_valid());
                assert((i + 1) * spacing_lag == i * spacing_lag + spacing_lag) by (nonlinear_arith);
            }
            self.segments.set(
                i,
                ShnekSegment::new(snapshot.position, snapshot.direction, snapshot.up),
            );
            i += 1;
        }
        proof {
            assert(self@.segments =~= old(self)@.moved(dt as nat).segments);
            assert forall|k: int| 0 <= k < self@.segments.len() implies (
            #[trigger] self@.segments[k]).is_valid() by {
                lemma_lookup_index_latest(history, base.target_time(k));
                assert(history[lookup_index(history, base.target_time(k))].is_valid());
            }
        }
    }

    /// Advances the run by `dt` milliseconds: the head moves, its pose is
    /// recorded, and every segment takes its place on the recorded path.
    pub fn move_forward(&mut self, dt: u32)
        requires
            old(self)@.wf(),
            old(self)@.time_moving + dt <= u64::MAX,
        ensures
            final(self)@ == old(self)@.moved(dt as nat),
            final(self)@.wf(),
    {
        self.step(dt as u64);
    }

    /// Appends `count` segments, one after the other.
    pub fn grow(&mut self, count: u32)
        requires
            old(self)@.wf(),
        ensures
            final(self)@ == old(self)@.grown(count as nat),
            final(self)@.wf(),
    {
        let mut added: u32 = 0;
        while added < count
            invariant
                added <= count,
                self@ == old(self)@.grown(added as nat),
                self@.wf(),
            decreases count - added,
        {
            self.add_segment();
            added += 1;
        }
    }

    /// Removes the tail segment `count` times.
    pub fn shrink(&mut self, count: u32)
        requires
            old(self)@.wf(),
        ensures
            final(self)@ == old(self)@.shrunk(count as nat),
            final(self)@.wf(),
    {
        let mut removed: u32 = 0;
        while removed < count
            invariant
                removed <= count,
                self@ == old(self)@.shrunk(removed as nat),
                self@.wf(),
            decreases count - removed,
        {
            self.pop_segment();
            removed += 1;
        }
    }

    /// Segments gained since the start of the run, negative after losses.
    pub fn get_score(&self) -> (score: i32)
        ensures
            score == self@.spec_get_score(),
    {
        let length: usize = self.segments.len();
        if length >= self.start_length {
            let gained: usize = length - self.start_length;
            if gained > 0x7fff_ffff {
                i32::MAX
            } else {
                gained as i32
            }
        } else {
            let lost: usize = self.start_length - length;
            if lost > 0x7fff_ffff {
                i32::MIN
            } else {
                -(lost as i32)
            }
        }
    }

    /// Moves for one tick of `dt` milliseconds, at double speed while the
    /// boost is on.
    pub fn check_boost_and_move(&mut self, dt: u32, boost: bool)
        requires
            old(self)@.wf(),
            old(self)@.time_moving + (if boost {
                2 * dt
            } else {
                dt as int
            }) <= u64::MAX,
        ensures
            final(self)@ == old(self)@.boost_moved(dt as nat, boost),
            final(self)@.wf(),
    {
        if boost {
            self.step(2 * (dt as u64));
            self.time_boosted = self.time_boosted + dt as u64;
        } else {
            self.step(dt as u64);
        }
    }

    /// Collects the boost debt. A snake that owes more than the limit and is
    /// longer than `start_len` loses its tail segment, is forgiven one limit
    /// of debt, and leaves a Poop where the tail was. Returns whether the
    /// debt is due while the snake has nothing left to pay with, which ends
    /// the run.
    pub fn check_boost_time(&mut self, food_factory: &mut FoodFactory, start_len: usize) -> (over:
        bool)
        requires
            old(self)@.wf(),
        ensures
            old(self)@.can_pay_boost(start_len as nat) ==> {
                &&& !over
                &&& final(self)@ == old(self)@.boost_paid()
                &&& final(food_factory)@ == old(food_factory)@.spawned(
                    old(self)@.segments.last().position,
                    POOP_SIZE,
                    1,
                    FoodVariant::Poop,
                    default_front(),
                    default_up(),
                    old(self)@.time_moving as u64,
                )
            },
            !old(self)@.can_pay_boost(start_len as nat) ==> {
                &&& over == old(self)@.boost_due()
                &&& final(self)@ == old(self)@
                &&& final(food_factory)@ == old(food_factory)@
            },
            final(self)@.wf(),
            old(food_factory)@.wf() ==> final(food_factory)@.wf(),
    {
        if self.time_boosted > BOOST_LIMIT && self.segments.len() > start_len {
            let tail = self.segments[self.segments.len() - 1];
            self.pop_segment();
            self.time_boosted -= BOOST_LIMIT;
            food_factory.new_custom(
                tail.position,
                POOP_SIZE,
                1,
                FoodVariant::Poop,
                vec3(0, SCALE, 0),
                vec3(0, 0, SCALE),
                self.time_moving,
            );
            false
        } else {
            self.time_boosted > BOOST_LIMIT
        }
    }

    /// Whether the head has run into the body.
    pub fn check_tail_collision(&self) -> (hit: bool)
        ensures
            hit == self@.tail_collision(),
    {
        if self.time_moving < SPAWN_IMMUNITY {
            return false;
        }
        let mut i: usize = 0;
        while i < self.segments.len()
            invariant
                i <= self.segments.len(),
                self.time_moving >= SPAWN_IMMUNITY,
                forall|k: int|
                    0 <= k < i ==> spec_mod_distance(
                        self@.head.position,
                        (#[trigger] self@.segments[k]).position,
                    ) >= TAIL_COLLISION_DISTANCE,
            decreases self.segments.len() - i,
        {
            let dist: i64 = mod_distance(self.head.position, self.segments[i].get_position());
            if dist < TAIL_COLLISION_DISTANCE {
                assert(spec_mod_distance(self@.head.position, self@.segments[i as int].position)
                    < TAIL_COLLISION_DISTANCE);
                return true;
            }
            i += 1;
        }
        false
    }

    /// Restarts the run.
    pub fn reset(&mut self)
        ensures
            final(self)@ == old(self)@.restarted(),
            old(self)@.speed > 0 ==> final(self)@.wf(),
    {
        self.time_moving = 0;
        self.time_boosted = 0;
        self.segments.clear();
        self.head_positions.clear();
        self.head.set_position(0, 0, 0);
        self.head.set_direction(vec3(SCALE, 0, 0), vec3(0, 0, SCALE));
    }

    /// Turns the head.
    pub fn set_direction(&mut self, d: Vector3, up: Vector3)
        requires
            d.within(SCALE as int),
            up.within(SCALE as int),
        ensures
            final(self)@ == (ShnekView {
                head: ShnekHead { direction: d, up, ..old(self)@.head },
                ..old(self)@
            }),
            old(self)@.wf() ==> final(self)@.wf(),
    {
        self.head.set_direction(d, up);
    }

    /// Puts the head at the place of the cube that `(x, y, z)` names.
    pub fn set_position(&mut self, x: i64, y: i64, z: i64)
        ensures
            final(self)@ == (ShnekView {
                head: ShnekHead {
                    position: spec_modulus_vec3(Vector3 { x, y, z }, SPACE_SIZE as int),
                    ..old(self)@.head
                },
                ..old(self)@
            }),
            old(self)@.wf() ==> final(self)@.wf(),
    {
        self.head.set_position(
            modulus(x, SPACE_SIZE),
            modulus(y, SPACE_SIZE),
            modulus(z, SPACE_SIZE),
        );
    }

    /// Where the head is.
    pub fn get_position(&self) -> (position: Vector3)
        ensures
            position == self@.head.position,
    {
        self.head.position
    }

    /// The point two world units above the head that the camera follows.
    pub fn get_camera_position(&self) -> (anchor: Vector3)
        requires
            self@.wf(),
        ensures
            anchor == (Vector3 {
                x: (self@.head.position.x + 2 * self@.head.up.x) as i64,
                y: (self@.head.position.y + 2 * self@.head.up.y) as i64,
                z: (self@.head.position.z + 2 * self@.head.up.z) as i64,
            }),
    {
        vec3(
            self.head.position.x + 2 * self.head.up.x,
            self.head.position.y + 2 * self.head.up.y,
            self.head.position.z + 2 * self.head.up.z,
        )
    }

    /// Number of segments.
    pub fn get_length(&self) -> (length: usize)
        ensures
            length == self@.segments.len(),
    {
        self.segments.len()
    }

    /// Milliseconds since the run began.
    pub fn get_time_moving(&self) -> (time: u64)
        ensures
            time == self@.time_moving,
    {
        self.time_moving
    }

    /// Milliseconds of boosting that have not been paid for yet.
    pub fn get_time_boosted(&self) -> (time: u64)
        ensures
            time == self@.time_boosted,
    {
        self.time_boosted
    }

    /// Number of segments a fresh snake is given.
    pub fn get_start_length(&self) -> (length: usize)
        ensures
            length == self@.start_length,
    {
        self.start_length
    }

    /// The body, from the link behind the head to the tail.
    pub fn get_segments(&self) -> (segments: &Vec<ShnekSegment>)
        ensures
            segments@ == self@.segments,
    {
        &self.segments
    }

    /// The head.
    pub fn get_head(&self) -> (head: ShnekHead)
        ensures
            head == self@.head,
    {
        self.head
    }
}

} // verus!
