//! Food: what lies in the cube for the snake to eat, and the factory that
//! keeps the supply going.
//!
//! There are three kinds. Normal food makes the snake grow and is replaced
//! when eaten; Bad food makes it shrink and spoils after a while; Poop is
//! what a boosting snake leaves behind, and feeds like Normal food.

use vstd::prelude::*;
use crate::difficulty::bad_food_quality;
use crate::difficulty::batch_capacity;
use crate::difficulty::max_food_for;
use crate::difficulty::quality_cap_for;
use crate::difficulty::spawns_bad_food;
use crate::difficulty::spec_bad_food_quality;
use crate::difficulty::spec_batch_capacity;
use crate::difficulty::spec_max_food;
use crate::difficulty::spec_quality_cap;
use crate::random::random_range;
use crate::random::RANDOM_LIMIT;
use crate::snake::Shnek;
use crate::snake::ShnekView;
use crate::snake::lemma_grown_adds;
use crate::snake::lemma_grown_keeps;
use crate::snake::lemma_shrunk_adds;
use crate::snake::lemma_shrunk_keeps;
use crate::toroidal::Vector3;
use crate::toroidal::SCALE;
use crate::toroidal::SPACE_SIZE;
use crate::toroidal::mod_distance;
use crate::toroidal::modulus_vec3;
use crate::toroidal::vec3;
use crate::toroidal::spec_mod_distance;
use crate::toroidal::spec_modulus_vec3;

verus! {

/// Food closer to the head than this is eaten.
pub const FOOD_COLLISION_DISTANCE: i64 = 10_000;

/// Milliseconds after which Bad food spoils.
pub const BAD_FOOD_LIFETIME: u64 = 30_000;

/// The distance reported while no food is around: three times the side of
/// the cube, farther than any two points can be apart.
pub const FAR_AWAY: i64 = 300_000;

/// Size of the food that the factory scatters.
pub const FOOD_SIZE: i64 = 1000;

/// The kind of a food.
#[derive(Clone, Copy, Debug, PartialEq, Eq, Structural)]
pub enum FoodVariant {
    Normal,
    Bad,
    Poop,
}

/// One piece of food.
#[derive(Clone, Copy, Debug, PartialEq, Eq, Structural)]
pub struct Food {
    /// The snake's clock when the food appeared, in milliseconds.
    pub time_created: u64,
    pub position: Vector3,
    pub up: Vector3,
    pub front: Vector3,
    pub size: i64,
    /// Number of segments the food is worth.
    pub quality: u32,
    pub variant: FoodVariant,
    /// Number of the food, given once by the factory.
    pub id: usize,
}

/// The front axis of scattered food.
pub open spec fn default_front() -> Vector3 {
    Vector3 { x: 0, y: SCALE, z: 0 }
}

/// The up axis of scattered food.
pub open spec fn default_up() -> Vector3 {
    Vector3 { x: 0, y: 0, z: SCALE }
}

impl Food {
    /// The place of the cube where the food lies.
    pub open spec fn spec_get_position(self) -> Vector3 {
        spec_modulus_vec3(self.position, SPACE_SIZE as int)
    }

    /// The wraparound distance between the food and `head`.
    pub open spec fn distance_from(self, head: Vector3) -> int {
        spec_mod_distance(head, self.spec_get_position())
    }

    /// Whether a head at `head` eats the food.
    pub open spec fn is_reached_from(self, head: Vector3) -> bool {
        self.distance_from(head) < FOOD_COLLISION_DISTANCE
    }

    /// Whether the food has lain longer than Bad food keeps.
    pub open spec fn is_expired_at(self, now: int) -> bool {
        now - self.time_created > BAD_FOOD_LIFETIME
    }

    /// A food with the given properties.
    pub fn new_custom(
        position: Vector3,
        up: Vector3,
        front: Vector3,
        size: i64,
        quality: u32,
        variant: FoodVariant,
        id: usize,
        time_created: u64,
    ) -> (food: Self)
        ensures
            food == (Food { time_created, position, up, front, size, quality, variant, id }),
    {
        Food { time_created, position, up, front, size, quality, variant, id }
    }

    /// The place of the cube where the food lies.
    pub fn get_position(&self) -> (position: Vector3)
        ensures
            position == self.spec_get_position(),
            position.is_canonical(SPACE_SIZE as int),
    {
        modulus_vec3(self.position, SPACE_SIZE)
    }
}

/// A point whose coordinates are drawn from `[min, max)` each (from `{min}`
/// when the two coincide).
pub fn random_vec3(min: i64, max: i64) -> (v: Vector3)
    requires
        0 <= min <= max <= RANDOM_LIMIT,
    ensures
        in_box(v, min as int, max as int),
{
    vec3(random_range(min, max), random_range(min, max), random_range(min, max))
}

/// `value` lies in `[min, max)`, or equals `min` where that range is empty.
pub open spec fn in_range(value: int, min: int, max: int) -> bool {
    min <= value <= max && (min < max ==> value < max)
}

/// Every coordinate of `v` lies in `[min, max)`, or equals `min` where that
/// range is empty.
pub open spec fn in_box(v: Vector3, min: int, max: int) -> bool {
    &&& in_range(v.x as int, min, max)
    &&& in_range(v.y as int, min, max)
    &&& in_range(v.z as int, min, max)
}

/// All of `foods` are of one kind and numbered in growing order below `bound`.
pub open spec fn is_shelf(foods: Seq<Food>, variant: FoodVariant, bound: int) -> bool {
    &&& forall|i: int|
        0 <= i < foods.len() ==> (#[trigger] foods[i]).variant == variant && foods[i].id < bound
    &&& forall|i: int, j: int| 0 <= i < j < foods.len() ==> foods[i].id < foods[j].id
}

/// No food of `a` shares its number with a food of `b`.
pub open spec fn ids_apart(a: Seq<Food>, b: Seq<Food>) -> bool {
    forall|i: int, j: int| 0 <= i < a.len() && 0 <= j < b.len() ==> a[i].id != b[j].id
}

/// The least of three distances.
pub open spec fn least_of(a: int, b: int, c: int) -> int {
    if a <= b && a <= c {
        a
    } else if b <= c {
        b
    } else {
        c
    }
}

/// The foods that a head at `head` does not eat.
pub open spec fn out_of_reach(head: Vector3) -> spec_fn(Food) -> bool {
    |food: Food| !food.is_reached_from(head)
}

/// The foods that have not spoiled at `now`.
pub open spec fn not_expired(now: int) -> spec_fn(Food) -> bool {
    |food: Food| !food.is_expired_at(now)
}

/// The distance from `head` to the nearest of `foods`, or [`FAR_AWAY`]
/// while there is none.
pub open spec fn nearest(foods: Seq<Food>, head: Vector3) -> int
    decreases foods.len(),
{
    if foods.len() == 0 {
        FAR_AWAY as int
    } else {
        let rest = nearest(foods.drop_last(), head);
        let distance = foods.last().distance_from(head);
        if distance < rest {
            distance
        } else {
            rest
        }
    }
}

/// Whether a head at `head` eats any of `foods`.
pub open spec fn any_reached(foods: Seq<Food>, head: Vector3) -> bool
    decreases foods.len(),
{
    if foods.len() == 0 {
        false
    } else {
        any_reached(foods.drop_last(), head) || foods.last().is_reached_from(head)
    }
}

/// The summed quality of those of `foods` that a head at `head` eats.
pub open spec fn reached_quality(foods: Seq<Food>, head: Vector3) -> nat
    decreases foods.len(),
{
    if foods.len() == 0 {
        0
    } else if foods.last().is_reached_from(head) {
        reached_quality(foods.drop_last(), head) + foods.last().quality as nat
    } else {
        reached_quality(foods.drop_last(), head)
    }
}

/// `food` looks like one that the factory scattered at `time`: of the given
/// kind, of the usual size and bearing, somewhere in the cube.
pub open spec fn is_scattered(food: Food, variant: FoodVariant, time: u64) -> bool {
    &&& food.variant == variant
    &&& food.time_created == time
    &&& food.size == FOOD_SIZE
    &&& food.front == default_front()
    &&& food.up == default_up()
    &&& food.position.is_canonical(SPACE_SIZE as int)
}

/// Filtering a list with one more food at its end keeps or drops that food
/// and leaves the rest as it was.
pub proof fn lemma_filter_push(foods: Seq<Food>, pred: spec_fn(Food) -> bool, food: Food)
    ensures
        foods.push(food).filter(pred) == if pred(food) {
            foods.filter(pred).push(food)
        } else {
            foods.filter(pred)
        },
{
    reveal(Seq::filter);
    assert(foods.push(food).drop_last() =~= foods);
}

/// A head eats one of `foods` exactly if one of them is within reach.
pub proof fn lemma_any_reached_exists(foods: Seq<Food>, head: Vector3)
    ensures
        any_reached(foods, head) <==> exists|i: int|
            0 <= i < foods.len() && (#[trigger] foods[i]).is_reached_from(head),
    decreases foods.len(),
{
    if foods.len() > 0 {
        let shorter = foods.drop_last();
        lemma_any_reached_exists(shorter, head);
        if any_reached(foods, head) {
            if foods.last().is_reached_from(head) {
                assert(foods[foods.len() - 1].is_reached_from(head));
            } else {
                let i = choose|i: int|
                    0 <= i < shorter.len() && (#[trigger] shorter[i]).is_reached_from(head);
                assert(foods[i] == shorter[i]);
            }
        }
        if exists|i: int| 0 <= i < foods.len() && (#[trigger] foods[i]).is_reached_from(head) {
            let i = choose|i: int|
                0 <= i < foods.len() && (#[trigger] foods[i]).is_reached_from(head);
            if i < shorter.len() {
                assert(shorter[i] == foods[i]);
            }
        }
    }
}

/// The nearest food is never farther than [`FAR_AWAY`], and no food lies
/// nearer than the distance reported.
pub proof fn lemma_nearest_is_least(foods: Seq<Food>, head: Vector3)
    ensures
        nearest(foods, head) <= FAR_AWAY,
        forall|i: int|
            0 <= i < foods.len() ==> nearest(foods, head) <= (#[trigger] foods[i]).distance_from(
                head,
            ),
        nearest(foods, head) == FAR_AWAY || exists|i: int|
            0 <= i < foods.len() && nearest(foods, head) == (#[trigger] foods[i]).distance_from(
                head,
            ),
    decreases foods.len(),
{
    if foods.len() > 0 {
        let shorter = foods.drop_last();
        lemma_nearest_is_least(shorter, head);
        assert forall|i: int| 0 <= i < foods.len() implies nearest(foods, head) <= (
        #[trigger] foods[i]).distance_from(head) by {
            if i < shorter.len() {
                assert(shorter[i] == foods[i]);
            }
        }
        if nearest(foods, head) != FAR_AWAY {
            if nearest(foods, head) == foods.last().distance_from(head) {
                assert(foods[foods.len() - 1].distance_from(head) == nearest(foods, head));
            } else {
                let i = choose|i: int|
                    0 <= i < shorter.len() && nearest(shorter, head) == (
                    #[trigger] shorter[i]).distance_from(head);
                assert(foods[i] == shorter[i]);
            }
        }
    }
}

/// What a [`FoodFactory`] holds, as plain values.
pub struct FoodFactoryView {
    /// The range that the quality of new Normal food is drawn from.
    pub quality_range: (u32, u32),
    pub good_food: Seq<Food>,
    pub bad_food: Seq<Food>,
    pub poop: Seq<Food>,
    /// Most Normal food that regeneration fills up to.
    pub max_food: u32,
    /// The number that the next food gets.
    pub id_counter: usize,
}

impl FoodFactoryView {
    /// The invariant of a factory: each list holds food of its own kind, no
    /// two live foods share a number, every number in use lies below the
    /// counter, and both difficulty values are in the range of the curves.
    pub open spec fn wf(self) -> bool {
        &&& self.quality_range.0 == 1
        &&& 1 <= self.quality_range.1 <= 11
        &&& 1 <= self.max_food <= 11
        &&& is_shelf(self.good_food, FoodVariant::Normal, self.id_counter as int)
        &&& is_shelf(self.bad_food, FoodVariant::Bad, self.id_counter as int)
        &&& is_shelf(self.poop, FoodVariant::Poop, self.id_counter as int)
        &&& ids_apart(self.good_food, self.bad_food)
        &&& ids_apart(self.good_food, self.poop)
        &&& ids_apart(self.bad_food, self.poop)
    }

    /// The list that holds the food of kind `variant`.
    pub open spec fn shelf(self, variant: FoodVariant) -> Seq<Food> {
        match variant {
            FoodVariant::Normal => self.good_food,
            FoodVariant::Bad => self.bad_food,
            FoodVariant::Poop => self.poop,
        }
    }

    /// The factory with the list of kind `variant` replaced.
    pub open spec fn with_shelf(self, variant: FoodVariant, foods: Seq<Food>) -> FoodFactoryView {
        match variant {
            FoodVariant::Normal => FoodFactoryView { good_food: foods, ..self },
            FoodVariant::Bad => FoodFactoryView { bad_food: foods, ..self },
            FoodVariant::Poop => FoodFactoryView { poop: foods, ..self },
        }
    }

    /// A factory at the start of a run: one Normal food of quality 1 at
    /// `(10, 10, 10)`.
    pub open spec fn initial() -> FoodFactoryView {
        FoodFactoryView {
            quality_range: (1, 2),
            good_food: seq![
                Food {
                    time_created: 0,
                    position: Vector3 { x: 10_000, y: 10_000, z: 10_000 },
                    up: default_up(),
                    front: default_front(),
                    size: FOOD_SIZE,
                    quality: 1,
                    variant: FoodVariant::Normal,
                    id: 0,
                },
            ],
            bad_food: Seq::empty(),
            poop: Seq::empty(),
            max_food: 1,
            id_counter: 1,
        }
    }

    /// The factory after a food with the given properties joined the list of
    /// its kind under the next free number. Once the numbers are used up
    /// nothing is added.
    pub open spec fn spawned(
        self,
        position: Vector3,
        size: i64,
        quality: u32,
        variant: FoodVariant,
        front: Vector3,
        up: Vector3,
        snake_time: u64,
    ) -> FoodFactoryView {
        if self.id_counter == usize::MAX {
            self
        } else {
            let food = Food {
                time_created: snake_time,
                position,
                up,
                front,
                size,
                quality,
                variant,
                id: self.id_counter,
            };
            FoodFactoryView {
                id_counter: (self.id_counter + 1) as usize,
                ..self.with_shelf(variant, self.shelf(variant).push(food))
            }
        }
    }

    /// Whether `after` is something that regeneration can make of this
    /// factory at snake time `time` and score `score`, while `pending` of the
    /// Normal foods listed are about to be removed.
    ///
    /// Regeneration only adds, at the end of the Normal and the Bad list.
    /// The Normal foods it adds are scattered over the cube with a quality of
    /// the current range; there is at least one of them if any fits, and
    /// never more than fit under `max_food`. At most one Bad food is added,
    /// and none up to a score of 5; its quality is a fifth of the score.
    /// Every new food gets a number that was free.
    pub open spec fn regenerated(
        self,
        after: FoodFactoryView,
        time: u64,
        score: int,
        pending: nat,
    ) -> bool {
        let capacity = spec_batch_capacity(self.max_food as nat, self.good_food.len(), pending);
        &&& after.quality_range == self.quality_range
        &&& after.max_food == self.max_food
        &&& after.poop == self.poop
        &&& self.good_food.is_prefix_of(after.good_food)
        &&& self.bad_food.is_prefix_of(after.bad_food)
        &&& after.good_food.len() - self.good_food.len() <= capacity
        &&& capacity >= 1 && self.id_counter < usize::MAX ==> after.good_food.len()
            > self.good_food.len()
        &&& after.bad_food.len() <= self.bad_food.len() + 1
        &&& score <= 5 ==> after.bad_food.len() == self.bad_food.len()
        &&& forall|i: int|
            self.good_food.len() <= i < after.good_food.len() ==> {
                &&& is_scattered(#[trigger] after.good_food[i], FoodVariant::Normal, time)
                &&& in_range(
                    after.good_food[i].quality as int,
                    self.quality_range.0 as int,
                    self.quality_range.1 as int,
                )
                &&& after.good_food[i].id >= self.id_counter
            }
        &&& forall|i: int|
            self.bad_food.len() <= i < after.bad_food.len() ==> {
                &&& is_scattered(#[trigger] after.bad_food[i], FoodVariant::Bad, time)
                &&& after.bad_food[i].quality == spec_bad_food_quality(score)
                &&& after.bad_food[i].id >= self.id_counter
            }
        &&& after.id_counter == self.id_counter + (after.good_food.len() - self.good_food.len()) + (
        after.bad_food.len() - self.bad_food.len())
    }

    /// Whether `after` is something that a pass over the Normal food can
    /// make of this factory, for a snake that is `snake_before` when the pass
    /// begins and `snake_after` when it ends.
    ///
    /// The foods within reach of the head are gone, the others are kept in
    /// their order. Behind them stands what regeneration added after each
    /// meal; if it added anything, no more than `max_food` Normal foods are
    /// alive. Bad foods may have been added too, at most one per meal.
    /// Without a meal nothing changes.
    pub open spec fn fed(
        self,
        after: FoodFactoryView,
        snake_before: ShnekView,
        snake_after: ShnekView,
    ) -> bool {
        let head = snake_before.head.position;
        let time = snake_before.time_moving as u64;
        let kept = self.good_food.filter(out_of_reach(head));
        &&& after.quality_range == self.quality_range
        &&& after.max_food == self.max_food
        &&& after.poop == self.poop
        &&& kept.is_prefix_of(after.good_food)
        &&& self.bad_food.is_prefix_of(after.bad_food)
        &&& forall|i: int|
            kept.len() <= i < after.good_food.len() ==> {
                &&& is_scattered(#[trigger] after.good_food[i], FoodVariant::Normal, time)
                &&& in_range(
                    after.good_food[i].quality as int,
                    self.quality_range.0 as int,
                    self.quality_range.1 as int,
                )
                &&& after.good_food[i].id >= self.id_counter
            }
        &&& forall|i: int|
            self.bad_food.len() <= i < after.bad_food.len() ==> {
                &&& is_scattered(#[trigger] after.bad_food[i], FoodVariant::Bad, time)
                &&& spec_bad_food_quality(snake_before.spec_get_score())
                    <= after.bad_food[i].quality <= spec_bad_food_quality(
                    snake_after.spec_get_score(),
                )
                &&& after.bad_food[i].id >= self.id_counter
            }
        &&& after.good_food.len() > kept.len() ==> after.good_food.len() <= self.max_food
        &&& any_reached(self.good_food, head) && after.id_counter < usize::MAX
            ==> after.good_food.len() > kept.len() || kept.len() >= self.max_food
        &&& after.bad_food.len() - self.bad_food.len() <= self.good_food.len() - kept.len()
        &&& snake_after.spec_get_score() <= 5 ==> after.bad_food.len() == self.bad_food.len()
        &&& !any_reached(self.good_food, head) ==> after == self
        &&& after.id_counter == self.id_counter + (after.good_food.len() - kept.len()) + (
        after.bad_food.len() - self.bad_food.len())
    }

    /// Whether `now` is something that a pass over the Normal food can have
    /// made of this factory once it has looked at the first `scanned` foods
    /// of the list: what [`FoodFactoryView::fed`] says, with the foods not
    /// looked at yet still in their places.
    #[verifier::opaque]
    pub open spec fn fed_up_to(
        self,
        now: FoodFactoryView,
        scanned: int,
        snake_before: ShnekView,
        snake_now: ShnekView,
    ) -> bool {
        let head = snake_before.head.position;
        let time = snake_before.time_moving as u64;
        let seen = self.good_food.take(scanned);
        let kept = seen.filter(out_of_reach(head));
        let rest = self.good_food.subrange(scanned, self.good_food.len() as int);
        let settled = kept.len() + rest.len();
        &&& 0 <= scanned <= self.good_food.len()
        &&& now.quality_range == self.quality_range
        &&& now.max_food == self.max_food
        &&& now.poop == self.poop
        &&& (kept + rest).is_prefix_of(now.good_food)
        &&& self.bad_food.is_prefix_of(now.bad_food)
        &&& forall|i: int|
            settled <= i < now.good_food.len() ==> {
                &&& is_scattered(#[trigger] now.good_food[i], FoodVariant::Normal, time)
                &&& in_range(
                    now.good_food[i].quality as int,
                    self.quality_range.0 as int,
                    self.quality_range.1 as int,
                )
                &&& now.good_food[i].id >= self.id_counter
            }
        &&& forall|i: int|
            self.bad_food.len() <= i < now.bad_food.len() ==> {
                &&& is_scattered(#[trigger] now.bad_food[i], FoodVariant::Bad, time)
                &&& spec_bad_food_quality(snake_before.spec_get_score())
                    <= now.bad_food[i].quality <= spec_bad_food_quality(snake_now.spec_get_score())
                &&& now.bad_food[i].id >= self.id_counter
            }
        &&& now.good_food.len() > settled ==> now.good_food.len() <= self.max_food
        &&& any_reached(seen, head) && now.id_counter < usize::MAX ==> now.good_food.len()
            > settled || settled >= self.max_food
        &&& now.bad_food.len() - self.bad_food.len() <= scanned - kept.len()
        &&& snake_now.spec_get_score() <= 5 ==> now.bad_food.len() == self.bad_food.len()
        &&& !any_reached(seen, head) ==> now == self
        &&& now.id_counter == self.id_counter + (now.good_food.len() - settled) + (
        now.bad_food.len() - self.bad_food.len())
    }

    /// Whether `after`, `snake_after` and `result` are something that one
    /// collision pass can make of this factory and of `snake_before`.
    ///
    /// The pass looks at the food that is there when it begins. It feeds the
    /// snake the Normal food within reach and restocks (see
    /// [`FoodFactoryView::fed`]), clears away the Bad food that has spoiled
    /// and makes the snake pay for what it reaches of the rest, and feeds it
    /// the Poop within reach. Then both difficulty values are set from the
    /// score that the snake had when the pass began. The result is the
    /// distance to the nearest food that was there and had not spoiled, and
    /// whether anything was eaten; what restocking adds is first looked at
    /// in the next pass.
    pub open spec fn passed(
        self,
        after: FoodFactoryView,
        snake_before: ShnekView,
        snake_after: ShnekView,
        result: (i64, bool),
    ) -> bool {
        let head = snake_before.head.position;
        let now = snake_before.time_moving as int;
        let score = snake_before.spec_get_score();
        let fresh = self.bad_food.filter(not_expired(now));
        let fattened = snake_before.grown(reached_quality(self.good_food, head));
        let thinned = fattened.shrunk(reached_quality(fresh, head));
        &&& result.0 == least_of(
            nearest(self.good_food, head),
            nearest(fresh, head),
            nearest(self.poop, head),
        )
        &&& result.1 == (any_reached(self.good_food, head) || any_reached(fresh, head)
            || any_reached(self.poop, head))
        &&& snake_after == thinned.grown(reached_quality(self.poop, head))
        &&& after.poop == self.poop.filter(out_of_reach(head))
        &&& after.quality_range.0 == self.quality_range.0
        &&& after.quality_range.1 == spec_quality_cap(score)
        &&& after.max_food == spec_max_food(score)
        &&& exists|stocked: FoodFactoryView|
            {
                &&& #[trigger] self.fed(stocked, snake_before, fattened)
                &&& after.good_food == stocked.good_food
                &&& after.bad_food == fresh.filter(out_of_reach(head)) + stocked.bad_food.subrange(
                    self.bad_food.len() as int,
                    stocked.bad_food.len() as int,
                )
                &&& after.id_counter == stocked.id_counter
            }
    }

    /// The factory without the food at place `i` of the list of kind `variant`.
    pub open spec fn removed(self, i: int, variant: FoodVariant) -> FoodFactoryView {
        self.with_shelf(variant, self.shelf(variant).remove(i))
    }
}

/// Regenerating while one listed food waits for its removal, and then
/// removing it, is removing it first and regenerating afterwards.
pub proof fn lemma_regenerated_then_removed(
    listed: FoodFactoryView,
    stocked: FoodFactoryView,
    i: int,
    time: u64,
    score: int,
)
    requires
        0 <= i < listed.good_food.len(),
        listed.regenerated(stocked, time, score, 1),
    ensures
        listed.removed(i, FoodVariant::Normal).regenerated(
            stocked.removed(i, FoodVariant::Normal),
            time,
            score,
            0,
        ),
{
    let base = listed.removed(i, FoodVariant::Normal);
    let after = stocked.removed(i, FoodVariant::Normal);
    assert(listed.good_food =~= stocked.good_food.subrange(0, listed.good_food.len() as int));
    assert(base.good_food =~= after.good_food.subrange(0, base.good_food.len() as int)) by {
        assert forall|k: int| 0 <= k < base.good_food.len() implies base.good_food[k]
            == after.good_food[k] by {
            if k < i {
                assert(stocked.good_food.subrange(0, listed.good_food.len() as int)[k]
                    == listed.good_food[k]);
            } else {
                assert(stocked.good_food.subrange(0, listed.good_food.len() as int)[k + 1]
                    == listed.good_food[k + 1]);
            }
        }
    }
    assert forall|k: int| base.good_food.len() <= k < after.good_food.len() implies {
        &&& is_scattered(#[trigger] after.good_food[k], FoodVariant::Normal, time)
        &&& in_range(
            after.good_food[k].quality as int,
            base.quality_range.0 as int,
            base.quality_range.1 as int,
        )
        &&& after.good_food[k].id >= base.id_counter
    } by {
        assert(after.good_food[k] == stocked.good_food[k + 1]);
    }
}

/// Before the pass has looked at any food, nothing has changed.
pub proof fn lemma_fed_start(before: FoodFactoryView, snake: ShnekView)
    ensures
        before.fed_up_to(before, 0, snake, snake),
{
    reveal(FoodFactoryView::fed_up_to);
    reveal(Seq::filter);
    let foods = before.good_food;
    assert(foods.take(0) =~= Seq::<Food>::empty());
    assert(foods.take(0).filter(out_of_reach(snake.head.position)) =~= Seq::<Food>::empty());
    assert(foods.subrange(0, foods.len() as int) =~= foods);
    assert(Seq::<Food>::empty() + foods =~= foods);
    assert(before.bad_food.subrange(0, before.bad_food.len() as int) =~= before.bad_food);
}

/// The next food that the pass looks at stands right behind the foods it
/// has kept.
pub proof fn lemma_fed_next(
    before: FoodFactoryView,
    now: FoodFactoryView,
    scanned: int,
    snake_before: ShnekView,
    snake_now: ShnekView,
)
    requires
        before.fed_up_to(now, scanned, snake_before, snake_now),
        scanned < before.good_food.len(),
    ensures
        before.good_food.take(scanned).filter(out_of_reach(snake_before.head.position)).len()
            < now.good_food.len(),
        now.good_food[before.good_food.take(scanned).filter(
            out_of_reach(snake_before.head.position),
        ).len() as int] == before.good_food[scanned],
{
    reveal(FoodFactoryView::fed_up_to);
    let foods = before.good_food;
    let kept = foods.take(scanned).filter(out_of_reach(snake_before.head.position));
    let rest = foods.subrange(scanned, foods.len() as int);
    assert((kept + rest)[kept.len() as int] == rest[0]);
    assert(now.good_food.subrange(0, (kept + rest).len() as int)[kept.len() as int]
        == now.good_food[kept.len() as int]);
}

/// Looking at a food that is out of reach changes nothing.
pub proof fn lemma_fed_skip(
    before: FoodFactoryView,
    now: FoodFactoryView,
    scanned: int,
    snake_before: ShnekView,
    snake_now: ShnekView,
)
    requires
        before.fed_up_to(now, scanned, snake_before, snake_now),
        scanned < before.good_food.len(),
        !before.good_food[scanned].is_reached_from(snake_before.head.position),
    ensures
        before.fed_up_to(now, scanned + 1, snake_before, snake_now),
{
    reveal(FoodFactoryView::fed_up_to);
    let head = snake_before.head.position;
    let foods = before.good_food;
    let seen = foods.take(scanned);
    let food = foods[scanned];
    let kept = seen.filter(out_of_reach(head));
    let rest = foods.subrange(scanned, foods.len() as int);
    let rest_after = foods.subrange(scanned + 1, foods.len() as int);
    assert(foods.take(scanned + 1) =~= seen.push(food));
    assert(seen.push(food).drop_last() =~= seen);
    lemma_filter_push(seen, out_of_reach(head), food);
    assert(kept.push(food) + rest_after =~= kept + rest);
}

/// Eating the next food of the list, growing, regenerating and removing
/// the food carries the pass one food further.
pub proof fn lemma_fed_meal(
    before: FoodFactoryView,
    listed: FoodFactoryView,
    after: FoodFactoryView,
    scanned: int,
    snake_before: ShnekView,
    snake_listed: ShnekView,
    snake_after: ShnekView,
)
    requires
        before.fed_up_to(listed, scanned, snake_before, snake_listed),
        scanned < before.good_food.len(),
        before.good_food[scanned].is_reached_from(snake_before.head.position),
        snake_before.spec_get_score() <= snake_listed.spec_get_score()
            <= snake_after.spec_get_score(),
        snake_after.time_moving == snake_before.time_moving,
        snake_before.time_moving <= u64::MAX,
        listed.removed(
            before.good_food.take(scanned).filter(out_of_reach(snake_before.head.position)).len() as int,
            FoodVariant::Normal,
        ).regenerated(
            after,
            snake_after.time_moving as u64,
            snake_after.spec_get_score(),
            0,
        ),
    ensures
        before.fed_up_to(after, scanned + 1, snake_before, snake_after),
{
    reveal(FoodFactoryView::fed_up_to);
    let head = snake_before.head.position;
    let time = snake_before.time_moving as u64;
    let foods = before.good_food;
    let seen = foods.take(scanned);
    let food = foods[scanned];
    let kept = seen.filter(out_of_reach(head));
    let rest = foods.subrange(scanned, foods.len() as int);
    let rest_after = foods.subrange(scanned + 1, foods.len() as int);
    let settled = kept.len() + rest.len();
    let base = listed.removed(kept.len() as int, FoodVariant::Normal);
    assert(foods.take(scanned + 1) =~= seen.push(food));
    assert(seen.push(food).drop_last() =~= seen);
    lemma_filter_push(seen, out_of_reach(head), food);
    assert(listed.good_food.subrange(0, settled as int) =~= kept + rest);
    assert(base.good_food.len() == listed.good_food.len() - 1);
    assert forall|k: int| 0 <= k < base.good_food.len() implies base.good_food[k] == (if k
        < kept.len() {
        listed.good_food[k]
    } else {
        listed.good_food[k + 1]
    }) by {}
    assert(base.good_food =~= after.good_food.subrange(0, base.good_food.len() as int));
    assert forall|k: int| 0 <= k < base.good_food.len() implies after.good_food[k]
        == base.good_food[k] by {
        assert(after.good_food.subrange(0, base.good_food.len() as int)[k] == after.good_food[k]);
    }
    assert((kept + rest_after) =~= after.good_food.subrange(0, settled - 1)) by {
        assert forall|k: int| 0 <= k < settled - 1 implies (kept + rest_after)[k]
            == after.good_food[k] by {
            if k < kept.len() {
                assert((kept + rest)[k] == listed.good_food.subrange(0, settled as int)[k]);
            } else {
                assert((kept + rest)[k + 1] == listed.good_food.subrange(0, settled as int)[k + 1]);
            }
        }
    }
    assert forall|k: int| settled - 1 <= k < after.good_food.len() implies {
        &&& is_scattered(#[trigger] after.good_food[k], FoodVariant::Normal, time)
        &&& in_range(
            after.good_food[k].quality as int,
            before.quality_range.0 as int,
            before.quality_range.1 as int,
        )
        &&& after.good_food[k].id >= before.id_counter
    } by {
        if k < base.good_food.len() {
            assert(after.good_food[k] == listed.good_food[k + 1]);
        }
    }
    assert(listed.bad_food =~= after.bad_food.subrange(0, listed.bad_food.len() as int));
    assert(before.bad_food =~= after.bad_food.subrange(0, before.bad_food.len() as int)) by {
        assert forall|k: int| 0 <= k < before.bad_food.len() implies before.bad_food[k]
            == after.bad_food[k] by {
            assert(listed.bad_food.subrange(0, before.bad_food.len() as int)[k]
                == listed.bad_food[k]);
            assert(after.bad_food.subrange(0, listed.bad_food.len() as int)[k]
                == after.bad_food[k]);
        }
    }
    assert forall|k: int| before.bad_food.len() <= k < after.bad_food.len() implies {
        &&& is_scattered(#[trigger] after.bad_food[k], FoodVariant::Bad, time)
        &&& spec_bad_food_quality(snake_before.spec_get_score()) <= after.bad_food[k].quality
            <= spec_bad_food_quality(snake_after.spec_get_score())
        &&& after.bad_food[k].id >= before.id_counter
    } by {
        if k < listed.bad_food.len() {
            assert(after.bad_food.subrange(0, listed.bad_food.len() as int)[k]
                == after.bad_food[k]);
            assert(after.bad_food[k] == listed.bad_food[k]);
        }
    }
}

/// A pass that has looked at every food is complete.
pub proof fn lemma_fed_done(
    before: FoodFactoryView,
    after: FoodFactoryView,
    snake_before: ShnekView,
    snake_after: ShnekView,
)
    requires
        before.fed_up_to(after, before.good_food.len() as int, snake_before, snake_after),
    ensures
        before.fed(after, snake_before, snake_after),
{
    reveal(FoodFactoryView::fed_up_to);
    let foods = before.good_food;
    let head = snake_before.head.position;
    let kept = foods.filter(out_of_reach(head));
    assert(foods.take(foods.len() as int) =~= foods);
    assert(foods.subrange(foods.len() as int, foods.len() as int) =~= Seq::<Food>::empty());
    assert(kept + Seq::<Food>::empty() =~= kept);
    foods.lemma_filter_len(out_of_reach(head));
}

/// A collision pass never leaves more Normal food than there was, unless
/// it stays within the `max_food` that was in force.
pub proof fn lemma_pass_never_overfills(
    before: FoodFactoryView,
    after: FoodFactoryView,
    snake_before: ShnekView,
    snake_after: ShnekView,
    result: (i64, bool),
)
    requires
        before.passed(after, snake_before, snake_after, result),
    ensures
        after.good_food.len() <= before.good_food.len() || after.good_food.len()
            <= before.max_food,
{
    before.good_food.lemma_filter_len(out_of_reach(snake_before.head.position));
}

/// Whenever a collision pass adds Normal food, no more than the `max_food`
/// that was in force are alive afterwards.
pub proof fn lemma_restocking_bounded(
    before: FoodFactoryView,
    after: FoodFactoryView,
    snake_before: ShnekView,
    snake_after: ShnekView,
    result: (i64, bool),
)
    requires
        before.passed(after, snake_before, snake_after, result),
    ensures
        after.good_food.len() > before.good_food.filter(
            out_of_reach(snake_before.head.position),
        ).len() ==> after.good_food.len() <= before.max_food,
{
}

/// While the difficulty does not drop below what the factory was run with,
/// a collision pass leaves no more than `max_food` Normal foods alive.
pub proof fn lemma_regeneration_bounded(
    before: FoodFactoryView,
    after: FoodFactoryView,
    snake_before: ShnekView,
    snake_after: ShnekView,
    result: (i64, bool),
)
    requires
        before.passed(after, snake_before, snake_after, result),
        before.good_food.len() <= spec_max_food(snake_before.spec_get_score()),
        before.max_food <= spec_max_food(snake_before.spec_get_score()),
    ensures
        after.good_food.len() <= after.max_food,
{
    before.good_food.lemma_filter_len(out_of_reach(snake_before.head.position));
}

/// Owns all food of a run.
pub struct FoodFactory {
    quality_range: (u32, u32),
    good_food: Vec<Food>,
    bad_food: Vec<Food>,
    poop: Vec<Food>,
    max_food: u32,
    id_counter: usize,
}

impl View for FoodFactory {
    type V = FoodFactoryView;

    closed spec fn view(&self) -> FoodFactoryView {
        FoodFactoryView {
            quality_range: self.quality_range,
            good_food: self.good_food@,
            bad_food: self.bad_food@,
            poop: self.poop@,
            max_food: self.max_food,
            id_counter: self.id_counter,
        }
    }
}

impl FoodFactory {
    /// A factory at the start of a run.
    pub fn new() -> (factory: Self)
        ensures
            factory@ == FoodFactoryView::initial(),
            factory@.wf(),
    {
        let mut s = Self {
            quality_range: (1, 2),
            good_food: Vec::new(),
            bad_food: Vec::new(),
            poop: Vec::new(),
            max_food: 1,
            id_counter: 0,
        };
        let front = vec3(0, SCALE, 0);
        let up = vec3(0, 0, SCALE);
        s.new_custom(vec3(10_000, 10_000, 10_000), FOOD_SIZE, 1, FoodVariant::Normal, front, up, 0);
        assert(s@.good_food =~= FoodFactoryView::initial().good_food);
        s
    }

    /// Puts the factory back to the start of a run.
    pub fn reset(&mut self)
        ensures
            final(self)@ == FoodFactoryView::initial(),
            final(self)@.wf(),
    {
        *self = FoodFactory::new();
    }

    /// Adds a food with the given properties under the next free number.
    pub fn new_custom(
        &mut self,
        position: Vector3,
        size: i64,
        quality: u32,
        variant: FoodVariant,
        front: Vector3,
        up: Vector3,
        snake_time: u64,
    )
        ensures
            final(self)@ == old(self)@.spawned(
                position,
                size,
                quality,
                variant,
                front,
                up,
                snake_time,
            ),
            old(self)@.wf() ==> final(self)@.wf(),
    {
        if self.id_counter == usize::MAX {
            return ;
        }
        let food = Food::new_custom(
            position,
            up,
            front,
            size,
            quality,
            variant,
            self.id_counter,
            snake_time,
        );
        match variant {
            FoodVariant::Normal => {
                self.good_food.push(food);
            },
            FoodVariant::Poop => {
                self.poop.push(food);
            },
            FoodVariant::Bad => {
                self.bad_food.push(food);
            },
        }
        self.id_counter += 1;
    }

    /// Adds a food of kind `variant` at a random place of `[0, max_pos)` on
    /// every axis, with a quality drawn from the current quality range.
    pub fn new_random(&mut self, max_pos: i64, food_variant: FoodVariant, snake_time: u64)
        requires
            old(self)@.wf(),
            0 <= max_pos <= RANDOM_LIMIT,
        ensures
            exists|position: Vector3, quality: u32|
                in_box(position, 0, max_pos as int) && in_range(
                    quality as int,
                    old(self)@.quality_range.0 as int,
                    old(self)@.quality_range.1 as int,
                ) && final(self)@ == #[trigger] old(self)@.spawned(
                    position,
                    FOOD_SIZE,
                    quality,
                    food_variant,
                    default_front(),
                    default_up(),
                    snake_time,
                ),
            final(self)@.wf(),
    {
        let position = random_vec3(0, max_pos);
        let quality: u32 = random_range(self.quality_range.0 as i64, self.quality_range.1 as i64) as u32;
        let front = vec3(0, SCALE, 0);
        let up = vec3(0, 0, SCALE);
        self.new_custom(position, FOOD_SIZE, quality, food_variant, front, up, snake_time);
        assert(self@ == old(self)@.spawned(
            position,
            FOOD_SIZE,
            quality,
            food_variant,
            default_front(),
            default_up(),
            snake_time,
        ));
    }

    /// Adds a food of kind `variant` and the given quality at a random place
    /// of `[0, max_pos)` on every axis.
    pub fn new_random_with_quality(
        &mut self,
        max_pos: i64,
        food_variant: FoodVariant,
        quality: u32,
        snake_time: u64,
    )
        requires
            0 <= max_pos <= RANDOM_LIMIT,
        ensures
            exists|position: Vector3|
                in_box(position, 0, max_pos as int) && final(self)@ == #[trigger] old(
                    self,
                )@.spawned(
                    position,
                    FOOD_SIZE,
                    quality,
                    food_variant,
                    default_front(),
                    default_up(),
                    snake_time,
                ),
            old(self)@.wf() ==> final(self)@.wf(),
    {
        let position = random_vec3(0, max_pos);
        let front = vec3(0, SCALE, 0);
        let up = vec3(0, 0, SCALE);
        self.new_custom(position, FOOD_SIZE, quality, food_variant, front, up, snake_time);
        assert(self@ == old(self)@.spawned(
            position,
            FOOD_SIZE,
            quality,
            food_variant,
            default_front(),
            default_up(),
            snake_time,
        ));
    }

    /// Takes the food at place `i` of the list of kind `variant` away.
    pub fn remove_food_model(&mut self, i: usize, variant: FoodVariant)
        requires
            i < old(self)@.shelf(variant).len(),
        ensures
            final(self)@ == old(self)@.removed(i as int, variant),
            old(self)@.wf() ==> final(self)@.wf(),
    {
        match variant {
            FoodVariant::Normal => {
                self.good_food.remove(i);
            },
            FoodVariant::Bad => {
                self.bad_food.remove(i);
            },
            FoodVariant::Poop => {
                self.poop.remove(i);
            },
        }
    }

    /// Replaces Normal food after a meal, and now and then adds a Bad food.
    ///
    /// `remove_count` is the number of Normal foods still listed that are
    /// about to be removed. If fewer than `max_food` remain alive, between
    /// one and as many as fit are scattered. From a score of 6 on, a Bad food
    /// follows four times out of ten.
    pub fn generate_food(&mut self, snake: &Shnek, remove_count: usize)
        requires
            old(self)@.wf(),
        ensures
            old(self)@.regenerated(
                final(self)@,
                snake@.time_moving as u64,
                snake@.spec_get_score(),
                remove_count as nat,
            ),
            final(self)@.wf(),
    {
        let score: i32 = snake.get_score();
        let time: u64 = snake.get_time_moving();
        let ghost before = self@;
        let capacity: usize = batch_capacity(self.max_food, self.food_count(), remove_count);
        if capacity > 0 {
            let batch: i64 = random_range(1, capacity as i64 + 1);
            let mut made: i64 = 0;
            while made < batch
                invariant
                    0 <= made <= batch <= capacity,
                    self@.wf(),
                    self@ == (FoodFactoryView {
                        good_food: self@.good_food,
                        id_counter: self@.id_counter,
                        ..before
                    }),
                    before.good_food.is_prefix_of(self@.good_food),
                    self@.good_food.len() - before.good_food.len() <= made,
                    made >= 1 && before.id_counter < usize::MAX ==> self@.good_food.len()
                        > before.good_food.len(),
                    self@.id_counter == before.id_counter + (self@.good_food.len()
                        - before.good_food.len()),
                    forall|i: int|
                        before.good_food.len() <= i < self@.good_food.len() ==> {
                            &&& is_scattered(#[trigger] self@.good_food[i], FoodVariant::Normal, time)
                            &&& in_range(
                                self@.good_food[i].quality as int,
                                before.quality_range.0 as int,
                                before.quality_range.1 as int,
                            )
                            &&& self@.good_food[i].id >= before.id_counter
                        },
                decreases batch - made,
            {
                self.new_random(SPACE_SIZE, FoodVariant::Normal, time);
                made += 1;
            }
        }
        if score > 5 {
            let roll: i64 = random_range(0, 100);
            if spawns_bad_food(score, roll) {
                self.new_random_with_quality(
                    SPACE_SIZE,
                    FoodVariant::Bad,
                    bad_food_quality(score),
                    time,
                );
            }
        }
    }

    /// Lets the snake eat the Normal food within reach of its head: it grows
    /// by the quality of each, each is taken away, and after each meal the
    /// supply is regenerated. Returns the distance to the nearest Normal
    /// food that was there and whether any was eaten.
    pub fn check_good_food_collision(&mut self, snake: &mut Shnek) -> (result: (i64, bool))
        requires
            old(self)@.wf(),
            old(snake)@.wf(),
        ensures
            result.0 == nearest(old(self)@.good_food, old(snake)@.head.position),
            result.1 == any_reached(old(self)@.good_food, old(snake)@.head.position),
            final(snake)@ == old(snake)@.grown(
                reached_quality(old(self)@.good_food, old(snake)@.head.position),
            ),
            old(self)@.fed(final(self)@, old(snake)@, final(snake)@),
            final(self)@.wf(),
            final(snake)@.wf(),
    {
        let head = snake.get_position();
        let now: u64 = snake.get_time_moving();
        let ghost before = self@;
        let ghost snake_before = snake@;
        let ghost foods = self@.good_food;
        let total: usize = self.good_food.len();
        let mut min_dist: i64 = FAR_AWAY;
        let mut eaten = false;
        let mut i: usize = 0;
        let mut scanned: usize = 0;
        proof {
            assert(foods.take(0) =~= Seq::<Food>::empty());
            lemma_fed_start(before, snake_before);
            lemma_grown_keeps(snake_before, 0);
        }
        while scanned < total
            invariant
                scanned <= total,
                total == foods.len(),
                foods == before.good_food,
                self@.wf(),
                snake@.wf(),
                before.fed_up_to(self@, scanned as int, snake_before, snake@),
                i == foods.take(scanned as int).filter(out_of_reach(head)).len(),
                snake_before.spec_get_score() <= snake@.spec_get_score(),
                min_dist == nearest(foods.take(scanned as int), head),
                eaten == any_reached(foods.take(scanned as int), head),
                snake@ == snake_before.grown(reached_quality(foods.take(scanned as int), head)),
                head == snake_before.head.position,
                snake_before.time_moving == now,
            decreases total - scanned,
        {
            let ghost seen = foods.take(scanned as int);
            proof {
                lemma_fed_next(before, self@, scanned as int, snake_before, snake@);
            }
            let food = self.good_food[i];
            proof {
                assert(food == foods[scanned as int]);
                assert(foods.take(scanned + 1) =~= seen.push(food));
                assert(seen.push(food).drop_last() =~= seen);
                lemma_grown_adds(snake_before, reached_quality(seen, head), food.quality as nat);
                lemma_grown_keeps(snake_before, reached_quality(seen, head));
                lemma_grown_keeps(snake@, food.quality as nat);
            }
            let dist: i64 = mod_distance(snake.get_position(), food.get_position());
            if dist < min_dist {
                min_dist = dist;
            }
            if dist < FOOD_COLLISION_DISTANCE {
                eaten = true;
                let ghost listed = self@;
                let ghost snake_listed = snake@;
                snake.grow(food.quality);
                self.generate_food(snake, 1);
                let ghost stocked = self@;
                self.remove_food_model(i, FoodVariant::Normal);
                proof {
                    lemma_regenerated_then_removed(
                        listed,
                        stocked,
                        i as int,
                        snake@.time_moving as u64,
                        snake@.spec_get_score(),
                    );
                    lemma_fed_meal(
                        before,
                        listed,
                        self@,
                        scanned as int,
                        snake_before,
                        snake_listed,
                        snake@,
                    );
                    lemma_filter_push(seen, out_of_reach(head), food);
                }
            } else {
                proof {
                    lemma_fed_skip(before, self@, scanned as int, snake_before, snake@);
                    lemma_filter_push(seen, out_of_reach(head), food);
                }
                i += 1;
            }
            scanned += 1;
        }
        proof {
            assert(foods.take(total as int) =~= foods);
            lemma_fed_done(before, self@, snake_before, snake@);
        }
        (min_dist, eaten)
    }

    /// Lets the snake eat the Poop within reach of its head: it grows by the
    /// quality of each, and each is taken away. Returns the distance to the
    /// nearest Poop and whether any was eaten.
    pub fn check_poop_collision(&mut self, snake: &mut Shnek) -> (result: (i64, bool))
        requires
            old(self)@.wf(),
            old(snake)@.wf(),
        ensures
            result.0 == nearest(old(self)@.poop, old(snake)@.head.position),
            result.1 == any_reached(old(self)@.poop, old(snake)@.head.position),
            final(snake)@ == old(snake)@.grown(
                reached_quality(old(self)@.poop, old(snake)@.head.position),
            ),
            final(self)@ == (FoodFactoryView {
                poop: old(self)@.poop.filter(out_of_reach(old(snake)@.head.position)),
                ..old(self)@
            }),
            final(self)@.wf(),
            final(snake)@.wf(),
    {
        let head = snake.get_position();
        let ghost before = self@;
        let ghost snake_before = snake@;
        let ghost foods = self@.poop;
        let total: usize = self.poop.len();
        let mut min_dist: i64 = FAR_AWAY;
        let mut eaten = false;
        let mut i: usize = 0;
        let mut scanned: usize = 0;
        proof {
            assert(foods.take(0) =~= Seq::<Food>::empty());
            assert(foods.subrange(0, total as int) =~= foods);
            reveal(Seq::filter);
        }
        while scanned < total
            invariant
                scanned <= total,
                total == foods.len(),
                self@.wf(),
                snake@.wf(),
                self@ == (FoodFactoryView { poop: self@.poop, ..before }),
                self@.poop =~= foods.take(scanned as int).filter(out_of_reach(head))
                    + foods.subrange(scanned as int, total as int),
                i == foods.take(scanned as int).filter(out_of_reach(head)).len(),
                min_dist == nearest(foods.take(scanned as int), head),
                eaten == any_reached(foods.take(scanned as int), head),
                snake@ == snake_before.grown(reached_quality(foods.take(scanned as int), head)),
                head == snake_before.head.position,
            decreases total - scanned,
        {
            let food = self.poop[i];
            let ghost seen = foods.take(scanned as int);
            proof {
                assert(food == foods[scanned as int]);
                assert(foods.take(scanned + 1) =~= seen.push(food));
                assert(seen.push(food).drop_last() =~= seen);
                lemma_filter_push(seen, out_of_reach(head), food);
                lemma_grown_adds(
                    snake_before,
                    reached_quality(seen, head),
                    food.quality as nat,
                );
                lemma_grown_keeps(snake_before, reached_quality(seen, head));
            }
            let dist: i64 = mod_distance(snake.get_position(), food.get_position());
            if dist < min_dist {
                min_dist = dist;
            }
            if dist < FOOD_COLLISION_DISTANCE {
                eaten = true;
                snake.grow(food.quality);
                self.remove_food_model(i, FoodVariant::Poop);
            } else {
                i += 1;
            }
            scanned += 1;
        }
        proof {
            assert(foods.take(total as int) =~= foods);
        }
        (min_dist, eaten)
    }

    /// The pass over the first `total` Bad foods of the list; those behind
    /// them stay as they are.
    fn scan_bad_food(&mut self, snake: &mut Shnek, total: usize) -> (result: (i64, bool))
        requires
            old(self)@.wf(),
            old(snake)@.wf(),
            total <= old(self)@.bad_food.len(),
        ensures
            result.0 == nearest(
                old(self)@.bad_food.take(total as int).filter(
                    not_expired(old(snake)@.time_moving as int),
                ),
                old(snake)@.head.position,
            ),
            result.1 == any_reached(
                old(self)@.bad_food.take(total as int).filter(
                    not_expired(old(snake)@.time_moving as int),
                ),
                old(snake)@.head.position,
            ),
            final(snake)@ == old(snake)@.shrunk(
                reached_quality(
                    old(self)@.bad_food.take(total as int).filter(
                        not_expired(old(snake)@.time_moving as int),
                    ),
                    old(snake)@.head.position,
                ),
            ),
            final(self)@ == (FoodFactoryView {
                bad_food: old(self)@.bad_food.take(total as int).filter(
                    not_expired(old(snake)@.time_moving as int),
                ).filter(out_of_reach(old(snake)@.head.position)) + old(self)@.bad_food.subrange(
                    total as int,
                    old(self)@.bad_food.len() as int,
                ),
                ..old(self)@
            }),
            final(self)@.wf(),
            final(snake)@.wf(),
    {
        let head = snake.get_position();
        let now: u64 = snake.get_time_moving();
        let ghost before = self@;
        let ghost snake_before = snake@;
        let ghost foods = self@.bad_food;
        let mut min_dist: i64 = FAR_AWAY;
        let mut eaten = false;
        let mut i: usize = 0;
        let mut scanned: usize = 0;
        proof {
            assert(foods.take(0) =~= Seq::<Food>::empty());
            assert(foods.subrange(0, foods.len() as int) =~= foods);
            reveal(Seq::filter);
        }
        while scanned < total
            invariant
                scanned <= total <= foods.len(),
                self@.wf(),
                snake@.wf(),
                self@ == (FoodFactoryView { bad_food: self@.bad_food, ..before }),
                self@.bad_food =~= foods.take(scanned as int).filter(not_expired(now as int)).filter(
                    out_of_reach(head),
                ) + foods.subrange(scanned as int, foods.len() as int),
                i == foods.take(scanned as int).filter(not_expired(now as int)).filter(
                    out_of_reach(head),
                ).len(),
                min_dist == nearest(foods.take(scanned as int).filter(not_expired(now as int)), head),
                eaten == any_reached(
                    foods.take(scanned as int).filter(not_expired(now as int)),
                    head,
                ),
                snake@ == snake_before.shrunk(
                    reached_quality(foods.take(scanned as int).filter(not_expired(now as int)), head),
                ),
                head == snake_before.head.position,
                now == snake_before.time_moving,
            decreases total - scanned,
        {
            let food = self.bad_food[i];
            let ghost seen = foods.take(scanned as int);
            let ghost fresh = seen.filter(not_expired(now as int));
            proof {
                assert(food == foods[scanned as int]);
                assert(foods.take(scanned + 1) =~= seen.push(food));
                lemma_filter_push(seen, not_expired(now as int), food);
                assert(fresh.push(food).drop_last() =~= fresh);
                lemma_filter_push(fresh, out_of_reach(head), food);
                lemma_shrunk_adds(snake_before, reached_quality(fresh, head), food.quality as nat);
                lemma_shrunk_keeps(snake_before, reached_quality(fresh, head));
            }
            if now > food.time_created && now - food.time_created > BAD_FOOD_LIFETIME {
                self.remove_food_model(i, FoodVariant::Bad);
            } else {
                let dist: i64 = mod_distance(snake.get_position(), food.get_position());
                if dist < min_dist {
                    min_dist = dist;
                }
                if dist < FOOD_COLLISION_DISTANCE {
                    eaten = true;
                    snake.shrink(food.quality);
                    self.remove_food_model(i, FoodVariant::Bad);
                } else {
                    i += 1;
                }
            }
            scanned += 1;
        }
        (min_dist, eaten)
    }

    /// Clears away the Bad food that has spoiled and lets the snake eat what
    /// is left within reach of its head: it shrinks by the quality of each,
    /// and each is taken away. Returns the distance to the nearest Bad food
    /// that has not spoiled and whether any was eaten.
    pub fn check_bad_food_collision(&mut self, snake: &mut Shnek) -> (result: (i64, bool))
        requires
            old(self)@.wf(),
            old(snake)@.wf(),
        ensures
            result.0 == nearest(
                old(self)@.bad_food.filter(not_expired(old(snake)@.time_moving as int)),
                old(snake)@.head.position,
            ),
            result.1 == any_reached(
                old(self)@.bad_food.filter(not_expired(old(snake)@.time_moving as int)),
                old(snake)@.head.position,
            ),
            final(snake)@ == old(snake)@.shrunk(
                reached_quality(
                    old(self)@.bad_food.filter(not_expired(old(snake)@.time_moving as int)),
                    old(snake)@.head.position,
                ),
            ),
            final(self)@ == (FoodFactoryView {
                bad_food: old(self)@.bad_food.filter(
                    not_expired(old(snake)@.time_moving as int),
                ).filter(out_of_reach(old(snake)@.head.position)),
                ..old(self)@
            }),
            final(self)@.wf(),
            final(snake)@.wf(),
    {
        let total: usize = self.bad_food.len();
        let ghost foods = self@.bad_food;
        proof {
            assert(foods.take(total as int) =~= foods);
            assert(foods.subrange(total as int, total as int) =~= Seq::<Food>::empty());
            assert(foods.filter(not_expired(snake@.time_moving as int)).filter(
                out_of_reach(snake@.head.position),
            ) + Seq::<Food>::empty() =~= foods.filter(not_expired(snake@.time_moving as int)).filter(
                out_of_reach(snake@.head.position),
            ));
        }
        self.scan_bad_food(snake, total)
    }

    /// Runs one collision pass over the food that is there: Normal food,
    /// then Bad food, then Poop, and at the end the difficulty is set from
    /// the score that the snake had when the pass began. Returns the
    /// distance to the nearest food and whether anything was eaten.
    pub fn check_food_collision(&mut self, snake: &mut Shnek) -> (result: (i64, bool))
        requires
            old(self)@.wf(),
            old(snake)@.wf(),
        ensures
            old(self)@.passed(final(self)@, old(snake)@, final(snake)@, result),
            final(self)@.wf(),
            final(snake)@.wf(),
    {
        let score: i32 = snake.get_score();
        let ghost before = self@;
        let ghost snake_before = snake@;
        let ghost head = snake@.head.position;
        proof {
            lemma_grown_keeps(snake_before, reached_quality(before.good_food, head));
        }
        let bad_count: usize = self.bad_food.len();
        let (md1, eaten1): (i64, bool) = self.check_good_food_collision(snake);
        let ghost stocked = self@;
        let ghost fattened = snake@;
        proof {
            assert(stocked.bad_food.take(bad_count as int) =~= before.bad_food);
            lemma_shrunk_keeps(
                fattened,
                reached_quality(
                    before.bad_food.filter(not_expired(snake_before.time_moving as int)),
                    head,
                ),
            );
        }
        let (md2, eaten2): (i64, bool) = self.scan_bad_food(snake, bad_count);
        let (md3, eaten3): (i64, bool) = self.check_poop_collision(snake);
        self.quality_range.1 = quality_cap_for(score);
        self.max_food = max_food_for(score);
        let nearest_of_all: i64 = if md1 <= md2 && md1 <= md3 {
            md1
        } else if md2 <= md3 {
            md2
        } else {
            md3
        };
        assert(before.fed(stocked, snake_before, fattened));
        (nearest_of_all, eaten1 || eaten2 || eaten3)
    }

    /// Number of Normal foods alive.
    pub fn food_count(&self) -> (count: usize)
        ensures
            count == self@.good_food.len(),
    {
        self.good_food.len()
    }

    /// Most Normal food that regeneration fills up to.
    pub fn max_food(&self) -> (max_food: u32)
        ensures
            max_food == self@.max_food,
    {
        self.max_food
    }

    /// The list that holds the food of kind `variant`.
    pub fn foods(&self, variant: FoodVariant) -> (foods: &Vec<Food>)
        ensures
            foods@ == self@.shelf(variant),
    {
        match variant {
            FoodVariant::Normal => &self.good_food,
            FoodVariant::Bad => &self.bad_food,
            FoodVariant::Poop => &self.poop,
        }
    }
}

} // verus!
