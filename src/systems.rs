use vstd::prelude::*;

use crate::motion::{
    add_clamped, clamp64, displacement, movement, translate, translated,
    Input, Vec2, MICROS_PER_SECOND,
};
use crate::timer::{lemma_finishes_once, lemma_run_elapsed, total, Timer};
use crate::world::{
    expired, expired_ids, has_id, ids_increasing, lemma_retain_members, lemma_retain_ordered,
    ordered_below, retain, survivors, Body, Bullet, Entity, EntityId, Lifetime, Player, Shape,
    World,
};

verus! {

/// Speed of the controlled actor, in units per second.
pub const PLAYER_SPEED: u64 = 5;

/// Speed of a fired projectile, in micro-units per tick (8 units).
pub const BULLET_SPEED: i64 = 8_000_000;

/// Time between two shots, in microseconds.
pub const FIRE_COOLDOWN: u64 = 500_000;

/// Time to live of a projectile, in microseconds.
pub const BULLET_LIFETIME: u64 = 1_000_000;

/// Half extent of a projectile's box, in micro-units.
pub const BULLET_HALF_SIZE: i64 = 2_000_000;

/// The controlled actor after the movement system: a kinematic actor is
/// moved by the held directions, a dynamic one is given the matching velocity
/// per second, and everything else is left alone.
pub open spec fn player_moved(e: Entity, input: Input, dt: u64) -> Entity {
    if e.player is Some {
        match e.body {
            Body::Kinematic => Entity {
                pos: translated(e.pos, displacement(input, PLAYER_SPEED, dt)),
                ..e
            },
            Body::Dynamic => Entity {
                velocity: displacement(input, PLAYER_SPEED, MICROS_PER_SECOND),
                ..e
            },
            Body::Static => e,
        }
    } else {
        e
    }
}

/// A kinematic projectile after one tick of flight: it advances along +X
/// by its velocity, whatever the tick's length.
pub open spec fn bullet_moved(e: Entity) -> Entity {
    if e.bullet is Some && e.body == Body::Kinematic {
        Entity {
            pos: Vec2 { x: clamp64(e.pos.x + e.bullet->Some_0.velocity) as i64, y: e.pos.y },
            ..e
        }
    } else {
        e
    }
}

/// Whether the actor fires this tick: `fire` is held and its cooldown,
/// advanced by this tick, has run out.
pub open spec fn fires(e: Entity, held: bool, dt: u64) -> bool {
    e.player is Some && held && e.player->Some_0.shooting_cooldown.ticked(dt).is_finished()
}

/// The actor after the firing system: its cooldown advances by `dt` and
/// starts over when it fires.
pub open spec fn cooled(e: Entity, held: bool, dt: u64) -> Entity {
    if e.player is Some {
        let p = e.player->Some_0;
        let t = p.shooting_cooldown.ticked(dt);
        let t2 = if held && t.is_finished() {
            Timer { duration: t.duration, elapsed: 0 }
        } else {
            t
        };
        Entity { player: Some(Player { shooting_cooldown: t2, ..p }), ..e }
    } else {
        e
    }
}

/// The projectile that the actor `e` fires, before it gets its id.
pub open spec fn bullet_from(e: Entity) -> Entity {
    Entity {
        id: EntityId { index: 0 },
        pos: translated(e.pos, e.player->Some_0.bullet_offset),
        velocity: Vec2 { x: 0, y: 0 },
        body: Body::Kinematic,
        shape: Shape::Cuboid { half_width: BULLET_HALF_SIZE, half_height: BULLET_HALF_SIZE },
        player: None,
        bullet: Some(Bullet { velocity: BULLET_SPEED }),
        lifetime: Some(Lifetime { timer: Timer { duration: BULLET_LIFETIME, elapsed: 0 } }),
        field: None,
    }
}

/// The projectiles fired by the actors of `s`, in order.
pub open spec fn fired(s: Seq<Entity>, held: bool, dt: u64) -> Seq<Entity>
    decreases s.len(),
{
    if s.len() == 0 {
        Seq::empty()
    } else if fires(s.last(), held, dt) {
        fired(s.drop_last(), held, dt).push(bullet_from(s.last()))
    } else {
        fired(s.drop_last(), held, dt)
    }
}

/// The entity after its time to live has advanced by `dt`.
pub open spec fn aged(e: Entity, dt: u64) -> Entity {
    if e.lifetime is Some {
        Entity { lifetime: Some(Lifetime { timer: e.lifetime->Some_0.timer.ticked(dt) }), ..e }
    } else {
        e
    }
}

/// `b` with ids handed out from `start` on.
pub open spec fn with_ids(b: Seq<Entity>, start: int) -> Seq<Entity> {
    Seq::new(b.len(), |k: int| Entity { id: EntityId { index: (start + k) as u64 }, ..b[k] })
}

pub open spec fn ids_of(s: Seq<Entity>) -> Seq<EntityId> {
    s.map_values(|e: Entity| e.id)
}

/// Length of a tick: what the clock reports, with a negative report read as
/// zero.
pub open spec fn tick_length(elapsed: i64) -> u64 {
    if elapsed < 0 {
        0
    } else {
        elapsed as u64
    }
}

/// The entities after the movement systems.
pub open spec fn moved_all(s: Seq<Entity>, input: Input, dt: u64) -> Seq<Entity> {
    s.map_values(|e: Entity| bullet_moved(player_moved(e, input, dt)))
}

/// The projectiles spawned in a tick, with their ids.
pub open spec fn born(s: Seq<Entity>, input: Input, dt: u64, next: int) -> Seq<Entity> {
    with_ids(fired(moved_all(s, input, dt), input.fire, dt), next)
}

/// Every entity of a tick before expired ones are removed: the live ones
/// moved, cooled down and aged, then the projectiles spawned in the tick.
pub open spec fn tick_model(s: Seq<Entity>, input: Input, dt: u64, next: int) -> Seq<Entity> {
    moved_all(s, input, dt).map_values(|e: Entity| aged(cooled(e, input.fire, dt), dt)) + born(
        s,
        input,
        dt,
        next,
    )
}

/// What a tick did to the store.
pub struct TickReport {
    pub spawned: Vec<EntityId>,
    pub destroyed: Vec<EntityId>,
}

fn move_entity(e: &Entity, input: &Input, dt: u64) -> (r: Entity)
    ensures
        r == player_moved(*e, *input, dt),
{
    if e.player.is_some() {
        match e.body {
            Body::Kinematic => Entity {
                pos: translate(e.pos, movement(input, PLAYER_SPEED, dt)),
                ..*e
            },
            Body::Dynamic => Entity { velocity: movement(input, PLAYER_SPEED, MICROS_PER_SECOND), ..*e },
            Body::Static => *e,
        }
    } else {
        *e
    }
}

fn fly_entity(e: &Entity) -> (r: Entity)
    ensures
        r == bullet_moved(*e),
{
    match e.bullet {
        Some(b) => match e.body {
            Body::Kinematic => Entity {
                pos: Vec2 { x: add_clamped(e.pos.x, b.velocity), y: e.pos.y },
                ..*e
            },
            _ => *e,
        },
        None => *e,
    }
}

fn cool_entity(e: &Entity, held: bool, dt: u64) -> (r: (Entity, bool))
    requires
        e.wf(),
    ensures
        r.0 == cooled(*e, held, dt),
        r.1 == fires(*e, held, dt),
        r.0.wf(),
{
    match e.player {
        Some(p) => {
            let mut t = p.shooting_cooldown;
            t.tick(dt);
            let shoot = held && t.finished();
            if shoot {
                t.reset();
            }
            (
                Entity {
                    player: Some(Player { shooting_cooldown: t, ..p }),
                    ..*e
                },
                shoot,
            )
        },
        None => (*e, false),
    }
}

fn bullet_of(e: &Entity) -> (r: Entity)
    requires
        e.player is Some,
    ensures
        r == bullet_from(*e),
        r.wf(),
{
    let p = e.player.unwrap();
    Entity {
        id: EntityId { index: 0 },
        pos: translate(e.pos, p.bullet_offset),
        velocity: Vec2 { x: 0, y: 0 },
        body: Body::Kinematic,
        shape: Shape::Cuboid { half_width: BULLET_HALF_SIZE, half_height: BULLET_HALF_SIZE },
        player: None,
        bullet: Some(Bullet { velocity: BULLET_SPEED }),
        lifetime: Some(Lifetime { timer: Timer::new(BULLET_LIFETIME) }),
        field: None,
    }
}

fn age_entity(e: &Entity, dt: u64) -> (r: Entity)
    requires
        e.wf(),
    ensures
        r == aged(*e, dt),
        r.wf(),
{
    match e.lifetime {
        Some(l) => {
            let mut t = l.timer;
            t.tick(dt);
            Entity { lifetime: Some(Lifetime { timer: t }), ..*e }
        },
        None => *e,
    }
}

/// Length of a tick in microseconds: a negative clock report counts as zero.
pub fn tick_length_of(elapsed: i64) -> (r: u64)
    ensures
        r == tick_length(elapsed),
{
    if elapsed < 0 {
        0
    } else {
        elapsed as u64
    }
}

impl World {
    /// Movement system: moves each controlled actor by the held directions
    /// (see `player_moved`).
    pub fn move_player(&mut self, input: &Input, dt: u64)
        requires
            old(self).wf(),
        ensures
            final(self).wf(),
            final(self).next_id == old(self).next_id,
            final(self).entities@ == old(self).entities@.map_values(
                |e: Entity| player_moved(e, *input, dt),
            ),
    {
        let ghost s = self.entities@;
        let mut out: Vec<Entity> = Vec::new();
        let mut i: usize = 0;
        while i < self.entities.len()
            invariant
                s == self.entities@,
                i <= s.len(),
                out@.len() == i,
                forall|j: int| 0 <= j < i ==> out@[j] == player_moved(s[j], *input, dt),
            decreases s.len() - i,
        {
            out.push(move_entity(&self.entities[i], input, dt));
            i = i + 1;
        }
        proof {
            assert(out@ =~= s.map_values(|e: Entity| player_moved(e, *input, dt)));
        }
        self.entities = out;
    }

    /// Moves each kinematic projectile along +X by its velocity: one step
    /// per call.
    pub fn move_bullets(&mut self)
        requires
            old(self).wf(),
        ensures
            final(self).wf(),
            final(self).next_id == old(self).next_id,
            final(self).entities@ == old(self).entities@.map_values(|e: Entity| bullet_moved(e)),
    {
        let ghost s = self.entities@;
        let mut out: Vec<Entity> = Vec::new();
        let mut i: usize = 0;
        while i < self.entities.len()
            invariant
                s == self.entities@,
                i <= s.len(),
                out@.len() == i,
                forall|j: int| 0 <= j < i ==> out@[j] == bullet_moved(s[j]),
            decreases s.len() - i,
        {
            out.push(fly_entity(&self.entities[i]));
            i = i + 1;
        }
        proof {
            assert(out@ =~= s.map_values(|e: Entity| bullet_moved(e)));
        }
        self.entities = out;
    }

    /// Firing system: advances every actor's cooldown by `dt` and returns
    /// the projectiles fired by the actors that are ready while `held`; the
    /// caller spawns them.
    pub fn fire(&mut self, held: bool, dt: u64) -> (shots: Vec<Entity>)
        requires
            old(self).wf(),
        ensures
            final(self).wf(),
            final(self).next_id == old(self).next_id,
            final(self).entities@ == old(self).entities@.map_values(
                |e: Entity| cooled(e, held, dt),
            ),
            shots@ == fired(old(self).entities@, held, dt),
            shots@.len() <= old(self).entities@.len(),
            forall|k: int| 0 <= k < shots@.len() ==> (#[trigger] shots@[k]).wf(),
    {
        let ghost s = self.entities@;
        let mut out: Vec<Entity> = Vec::new();
        let mut shots: Vec<Entity> = Vec::new();
        let mut i: usize = 0;
        while i < self.entities.len()
            invariant
                s == self.entities@,
                ordered_below(s, self.next_id as int),
                i <= s.len(),
                out@.len() == i,
                forall|j: int| 0 <= j < i ==> out@[j] == cooled(s[j], held, dt),
                forall|j: int| 0 <= j < i ==> (#[trigger] out@[j]).wf(),
                shots@ == fired(s.subrange(0, i as int), held, dt),
                shots@.len() <= i,
                forall|k: int| 0 <= k < shots@.len() ==> (#[trigger] shots@[k]).wf(),
            decreases s.len() - i,
        {
            let e = self.entities[i];
            proof {
                assert(s.subrange(0, i + 1).drop_last() =~= s.subrange(0, i as int));
                assert(s[i as int].wf());
            }
            let (c, shoot) = cool_entity(&e, held, dt);
            if shoot {
                shots.push(bullet_of(&e));
            }
            out.push(c);
            i = i + 1;
        }
        proof {
            assert(out@ =~= s.map_values(|e: Entity| cooled(e, held, dt)));
            assert(s.subrange(0, s.len() as int) =~= s);
        }
        self.entities = out;
        shots
    }

    /// Advances every entity's time to live by `dt`.
    pub fn age_lifetimes(&mut self, dt: u64)
        requires
            old(self).wf(),
        ensures
            final(self).wf(),
            final(self).next_id == old(self).next_id,
            final(self).entities@ == old(self).entities@.map_values(|e: Entity| aged(e, dt)),
    {
        let ghost s = self.entities@;
        let mut out: Vec<Entity> = Vec::new();
        let mut i: usize = 0;
        while i < self.entities.len()
            invariant
                s == self.entities@,
                ordered_below(s, self.next_id as int),
                i <= s.len(),
                out@.len() == i,
                forall|j: int| 0 <= j < i ==> out@[j] == aged(s[j], dt),
                forall|j: int| 0 <= j < i ==> (#[trigger] out@[j]).wf(),
            decreases s.len() - i,
        {
            proof {
                assert(s[i as int].wf());
            }
            out.push(age_entity(&self.entities[i], dt));
            i = i + 1;
        }
        proof {
            assert(out@ =~= s.map_values(|e: Entity| aged(e, dt)));
        }
        self.entities = out;
    }

    /// Removes every entity whose time to live has run out and returns their
    /// ids, in store order.
    pub fn sweep_expired(&mut self) -> (gone: Vec<EntityId>)
        requires
            old(self).wf(),
        ensures
            final(self).wf(),
            final(self).next_id == old(self).next_id,
            final(self).entities@ == survivors(old(self).entities@),
            gone@ == expired_ids(old(self).entities@),
    {
        let ghost s = self.entities@;
        let mut kept: Vec<Entity> = Vec::new();
        let mut gone: Vec<EntityId> = Vec::new();
        let mut i: usize = 0;
        while i < self.entities.len()
            invariant
                s == self.entities@,
                i <= s.len(),
                kept@ == survivors(s.subrange(0, i as int)),
                gone@ == expired_ids(s.subrange(0, i as int)),
            decreases s.len() - i,
        {
            let e = self.entities[i];
            proof {
                assert(s.subrange(0, i + 1).drop_last() =~= s.subrange(0, i as int));
            }
            let done = match e.lifetime {
                Some(l) => l.timer.finished(),
                None => false,
            };
            if done {
                proof {
                    assert(expired_ids(s.subrange(0, i + 1)) =~= gone@.push(e.id));
                }
                gone.push(e.id);
            } else {
                kept.push(e);
            }
            i = i + 1;
        }
        proof {
            assert(s.subrange(0, s.len() as int) =~= s);
            lemma_retain_ordered(s, |e: Entity| !expired(e), self.next_id as int);
        }
        self.entities = kept;
        gone
    }

    /// Expiry system: advances every time to live by `dt`, then destroys
    /// each entity whose time has run out, once, and returns their ids.
    pub fn despawn_lifetime_bullets(&mut self, dt: u64) -> (gone: Vec<EntityId>)
        requires
            old(self).wf(),
        ensures
            final(self).wf(),
            final(self).next_id == old(self).next_id,
            final(self).entities@ == survivors(
                old(self).entities@.map_values(|e: Entity| aged(e, dt)),
            ),
            gone@ == expired_ids(old(self).entities@.map_values(|e: Entity| aged(e, dt))),
    {
        self.age_lifetimes(dt);
        self.sweep_expired()
    }
}

impl World {
    /// One simulation step. A negative clock report counts as zero. The
    /// systems run in a fixed order: movement, firing, expiry; then the
    /// projectiles fired in this step are spawned, and every entity whose
    /// time to live has run out is destroyed. The store must have room for
    /// one id per live entity.
    pub fn tick(&mut self, input: &Input, elapsed: i64) -> (r: TickReport)
        requires
            old(self).wf(),
            old(self).next_id + old(self).entities@.len() < u64::MAX,
        ensures
            final(self).wf(),
            ({
                let dt = tick_length(elapsed);
                let all = tick_model(old(self).entities@, *input, dt, old(self).next_id as int);
                let new = born(old(self).entities@, *input, dt, old(self).next_id as int);
                &&& final(self).entities@ == survivors(all)
                &&& r.destroyed@ == expired_ids(all)
                &&& r.spawned@ == ids_of(new)
                &&& final(self).next_id == old(self).next_id + new.len()
            }),
    {
        let ghost s = self.entities@;
        let ghost n0 = self.next_id;
        let dt = tick_length_of(elapsed);
        self.move_player(input, dt);
        self.move_bullets();
        let ghost s1 = self.entities@;
        proof {
            assert(s1 =~= moved_all(s, *input, dt));
        }
        let shots = self.fire(input.fire, dt);
        self.age_lifetimes(dt);
        let ghost s3 = self.entities@;
        proof {
            assert(s3 =~= moved_all(s, *input, dt).map_values(
                |e: Entity| aged(cooled(e, input.fire, dt), dt),
            ));
        }
        let mut spawned: Vec<EntityId> = Vec::new();
        let mut k: usize = 0;
        while k < shots.len()
            invariant
                self.wf(),
                self.next_id == n0 + k,
                k <= shots@.len(),
                n0 + shots@.len() < u64::MAX,
                forall|j: int| 0 <= j < shots@.len() ==> (#[trigger] shots@[j]).wf(),
                self.entities@ == s3 + with_ids(shots@.subrange(0, k as int), n0 as int),
                spawned@ == ids_of(with_ids(shots@.subrange(0, k as int), n0 as int)),
            decreases shots@.len() - k,
        {
            let ghost before = self.entities@;
            let id = self.spawn(shots[k]);
            proof {
                assert(with_ids(shots@.subrange(0, k + 1), n0 as int) =~= with_ids(
                    shots@.subrange(0, k as int),
                    n0 as int,
                ).push(Entity { id: EntityId { index: (n0 + k) as u64 }, ..shots@[k as int] }));
            }
            match id {
                Some(i) => spawned.push(i),
                None => {},
            }
            k = k + 1;
            proof {
                assert(spawned@ =~= ids_of(with_ids(shots@.subrange(0, k as int), n0 as int)));
            }
        }
        proof {
            assert(shots@.subrange(0, shots@.len() as int) =~= shots@);
            assert(self.entities@ =~= tick_model(s, *input, dt, n0 as int));
        }
        let destroyed = self.sweep_expired();
        TickReport { spawned, destroyed }
    }
}

/// What one tick does to a live entity before expired entities are removed:
/// `tick_model` applies exactly this to each entity of the store.
pub open spec fn entity_step(e: Entity, input: Input, dt: u64) -> Entity {
    aged(cooled(bullet_moved(player_moved(e, input, dt)), input.fire, dt), dt)
}

/// The entity after the ticks `ds`, with the inputs `ins`, in turn.
pub open spec fn entity_run(e: Entity, ins: Seq<Input>, ds: Seq<u64>) -> Entity
    decreases ds.len(),
{
    if ds.len() == 0 || ins.len() == 0 {
        e
    } else {
        entity_step(entity_run(e, ins.drop_last(), ds.drop_last()), ins.last(), ds.last())
    }
}

/// A tick applies `entity_step` to each live entity, in store order, and
/// appends the projectiles fired in the tick; which of them fired is what
/// `fires` says of the entity after movement.
pub proof fn lemma_tick_steps_each(s: Seq<Entity>, input: Input, dt: u64, next: int)
    ensures
        tick_model(s, input, dt, next).len() == s.len() + born(s, input, dt, next).len(),
        forall|i: int|
            0 <= i < s.len() ==> #[trigger] tick_model(s, input, dt, next)[i] == entity_step(
                s[i],
                input,
                dt,
            ),
        forall|k: int|
            0 <= k < born(s, input, dt, next).len() ==> #[trigger] tick_model(s, input, dt, next)[s.len()
                + k] == born(s, input, dt, next)[k],
{
}

proof fn lemma_fired_len(s: Seq<Entity>, held: bool, dt: u64)
    ensures
        fired(s, held, dt).len() <= s.len(),
    decreases s.len(),
{
    if s.len() > 0 {
        lemma_fired_len(s.drop_last(), held, dt);
    }
}

/// The fate of a live entity in one tick of the store: it stays, as
/// `entity_step` makes it, exactly when that step leaves its time to live
/// running; otherwise the tick reports it destroyed, once, and it is gone.
pub proof fn lemma_tick_entity(s: Seq<Entity>, input: Input, dt: u64, next: int, i: int)
    requires
        ordered_below(s, next),
        0 <= next,
        next + s.len() < u64::MAX,
        0 <= i < s.len(),
    ensures
        ({
            let all = tick_model(s, input, dt, next);
            let e = entity_step(s[i], input, dt);
            &&& has_id(survivors(all), s[i].id) <==> !expired(e)
            &&& forall|j: int|
                0 <= j < survivors(all).len() && (#[trigger] survivors(all)[j]).id == s[i].id
                    ==> survivors(all)[j] == e
            &&& expired_ids(all).contains(s[i].id) <==> expired(e)
        }),
{
    let all = tick_model(s, input, dt, next);
    let b = born(s, input, dt, next);
    let e = entity_step(s[i], input, dt);
    lemma_tick_steps_each(s, input, dt, next);
    lemma_fired_len(moved_all(s, input, dt), input.fire, dt);
    assert forall|k: int| 0 <= k < b.len() implies (#[trigger] b[k]).id.index == next + k by {}
    assert forall|a: int| 0 <= a < s.len() implies (#[trigger] all[a]).id == s[a].id by {}
    assert(ids_increasing(all)) by {
        assert forall|a: int, c: int| 0 <= a < c < all.len() implies all[a].id.index
            < all[c].id.index by {
            if c < s.len() {
                assert(all[a].id == s[a].id && all[c].id == s[c].id);
            } else if a < s.len() {
                assert(all[c] == b[c - s.len()]);
            } else {
                assert(all[a] == b[a - s.len()] && all[c] == b[c - s.len()]);
            }
        }
    }
    let keep = |x: Entity| !expired(x);
    let gone = |x: Entity| expired(x);
    lemma_retain_members(all, keep);
    lemma_retain_members(all, gone);
    let sv = survivors(all);
    // The only entity of the tick with this id is the stepped one.
    assert forall|a: int| 0 <= a < all.len() && (#[trigger] all[a]).id == s[i].id implies a
        == i by {
        if a >= s.len() {
            assert(all[a] == b[a - s.len()]);
        } else if a != i {
            assert(all[a].id == s[a].id);
        }
    }
    assert(all[i] == e);
    if !expired(e) {
        assert(keep(all[i]));
        assert(sv.contains(all[i]));
        let k = choose|k: int| 0 <= k < sv.len() && sv[k] == all[i];
        assert(sv[k].id == s[i].id);
    }
    assert forall|j: int|
        0 <= j < sv.len() && (#[trigger] sv[j]).id == s[i].id implies sv[j] == e && !expired(e) by {
        let a = choose|a: int| 0 <= a < all.len() && all[a] == #[trigger] sv[j] && keep(all[a]);
    }
    let rg = retain(all, gone);
    if expired(e) {
        assert(gone(all[i]));
        assert(rg.contains(all[i]));
        let k = choose|k: int| 0 <= k < rg.len() && rg[k] == all[i];
        assert(expired_ids(all)[k] == s[i].id);
    }
    if expired_ids(all).contains(s[i].id) {
        let k = choose|k: int| 0 <= k < expired_ids(all).len() && expired_ids(all)[k] == s[i].id;
        let a = choose|a: int| 0 <= a < all.len() && all[a] == #[trigger] rg[k] && gone(all[a]);
        assert(all[a].id == s[i].id);
    }
}

/// A projectile after `n` movement steps.
pub open spec fn flown(e: Entity, n: nat) -> Entity
    decreases n,
{
    if n == 0 {
        e
    } else {
        bullet_moved(flown(e, (n - 1) as nat))
    }
}

/// A kinematic projectile with a non-negative velocity advances by its
/// velocity on each step: after `n` steps it has moved `n` times its
/// velocity along +X, and not at all along Y, as long as no coordinate
/// reaches the edge of the range.
pub proof fn lemma_flight(e: Entity, n: nat)
    requires
        e.bullet is Some,
        e.body == Body::Kinematic,
        e.bullet->Some_0.velocity >= 0,
        e.pos.x + n * e.bullet->Some_0.velocity <= i64::MAX,
    ensures
        flown(e, n).pos.x == e.pos.x + n * e.bullet->Some_0.velocity,
        flown(e, n).pos.y == e.pos.y,
        flown(e, n).bullet == e.bullet,
        flown(e, n).body == e.body,
    decreases n,
{
    if n > 0 {
        let v = e.bullet->Some_0.velocity;
        let m = (n - 1) as nat;
        assert(m * v + v == n * v && 0 <= m * v <= n * v) by (nonlinear_arith)
            requires
                m + 1 == n,
                v >= 0,
        ;
        lemma_flight(e, m);
        let prev = flown(e, m);
        assert(flown(e, n) == bullet_moved(prev));
        assert(prev.pos.x + v <= i64::MAX);
    } else {
        let v = e.bullet->Some_0.velocity;
        assert(n * v == 0) by (nonlinear_arith)
            requires
                n == 0,
        ;
    }
}

/// Whether the actor `e` fires on tick `k` of the run.
pub open spec fn shoots_on(e: Entity, ins: Seq<Input>, ds: Seq<u64>, k: int) -> bool {
    let before = entity_run(e, ins.subrange(0, k), ds.subrange(0, k));
    fires(bullet_moved(player_moved(before, ins[k], ds[k])), ins[k].fire, ds[k])
}

proof fn lemma_run_lifetime(e: Entity, ins: Seq<Input>, ds: Seq<u64>)
    requires
        e.lifetime is Some,
        e.lifetime->Some_0.timer.wf(),
        ins.len() == ds.len(),
    ensures
        entity_run(e, ins, ds).lifetime == Some(
            Lifetime { timer: e.lifetime->Some_0.timer.run(ds) },
        ),
    decreases ds.len(),
{
    if ds.len() > 0 {
        lemma_run_lifetime(e, ins.drop_last(), ds.drop_last());
    }
}

/// An entity with a running time to live is destroyed on exactly one tick of
/// any run: the first tick by whose end the time elapsed on its timer reaches
/// its time to live. Before that tick it is still live; from then on it
/// stays expired.
pub proof fn lemma_expires_once(e: Entity, ins: Seq<Input>, ds: Seq<u64>, k: int)
    requires
        e.wf(),
        e.lifetime is Some,
        !expired(e),
        ins.len() == ds.len(),
        0 <= k < ds.len(),
    ensures
        ({
            let t = e.lifetime->Some_0.timer;
            let destroyed_on_k = !expired(entity_run(e, ins.subrange(0, k), ds.subrange(0, k)))
                && expired(entity_run(e, ins.subrange(0, k + 1), ds.subrange(0, k + 1)));
            destroyed_on_k <==> (t.elapsed + total(ds.subrange(0, k)) < t.duration && t.elapsed
                + total(ds.subrange(0, k + 1)) >= t.duration)
        }),
        forall|j: int|
            0 <= j <= k && !expired(entity_run(e, ins.subrange(0, k), ds.subrange(0, k))) ==> !expired(
                #[trigger] entity_run(e, ins.subrange(0, j), ds.subrange(0, j)),
            ),
        forall|j: int|
            k < j <= ds.len() && expired(entity_run(e, ins.subrange(0, k + 1), ds.subrange(0, k + 1)))
                ==> expired(#[trigger] entity_run(e, ins.subrange(0, j), ds.subrange(0, j))),
{
    let t = e.lifetime->Some_0.timer;
    lemma_finishes_once(t, ds, k);
    lemma_run_lifetime(e, ins.subrange(0, k), ds.subrange(0, k));
    lemma_run_lifetime(e, ins.subrange(0, k + 1), ds.subrange(0, k + 1));
    assert forall|j: int|
        0 <= j <= k && !expired(
            entity_run(e, ins.subrange(0, k), ds.subrange(0, k)),
        ) implies !expired(#[trigger] entity_run(e, ins.subrange(0, j), ds.subrange(0, j))) by {
        lemma_run_lifetime(e, ins.subrange(0, j), ds.subrange(0, j));
        lemma_run_elapsed(t, ds.subrange(0, k));
        assert(!t.run(ds.subrange(0, j)).is_finished());
    }
    assert forall|j: int|
        k < j <= ds.len() && expired(
            entity_run(e, ins.subrange(0, k + 1), ds.subrange(0, k + 1)),
        ) implies expired(#[trigger] entity_run(e, ins.subrange(0, j), ds.subrange(0, j))) by {
        lemma_run_lifetime(e, ins.subrange(0, j), ds.subrange(0, j));
        lemma_run_elapsed(t, ds.subrange(0, k + 1));
        assert(t.run(ds.subrange(0, j)).is_finished());
    }
}

/// The actor's cooldown after the first `m` ticks of a run.
pub open spec fn cooldown_after(e: Entity, ins: Seq<Input>, ds: Seq<u64>, m: int) -> Timer {
    entity_run(e, ins.subrange(0, m), ds.subrange(0, m)).player->Some_0.shooting_cooldown
}

proof fn lemma_run_player(e: Entity, ins: Seq<Input>, ds: Seq<u64>)
    requires
        e.wf(),
        e.player is Some,
        ins.len() == ds.len(),
    ensures
        entity_run(e, ins, ds).player is Some,
        entity_run(e, ins, ds).wf(),
        entity_run(e, ins, ds).player->Some_0.shooting_cooldown.duration
            == e.player->Some_0.shooting_cooldown.duration,
    decreases ds.len(),
{
    if ds.len() > 0 {
        lemma_run_player(e, ins.drop_last(), ds.drop_last());
    }
}

proof fn lemma_cooldown_step(e: Entity, ins: Seq<Input>, ds: Seq<u64>, m: int)
    requires
        e.wf(),
        e.player is Some,
        ins.len() == ds.len(),
        0 <= m < ds.len(),
    ensures
        cooldown_after(e, ins, ds, m).wf(),
        cooldown_after(e, ins, ds, m + 1).duration == cooldown_after(e, ins, ds, m).duration,
        cooldown_after(e, ins, ds, m + 1).elapsed <= cooldown_after(e, ins, ds, m).elapsed + ds[m],
        shoots_on(e, ins, ds, m) ==> cooldown_after(e, ins, ds, m + 1).elapsed == 0,
        shoots_on(e, ins, ds, m) ==> cooldown_after(e, ins, ds, m).elapsed + ds[m]
            >= cooldown_after(e, ins, ds, m).duration,
{
    lemma_run_player(e, ins.subrange(0, m), ds.subrange(0, m));
    assert(ins.subrange(0, m + 1).drop_last() =~= ins.subrange(0, m));
    assert(ds.subrange(0, m + 1).drop_last() =~= ds.subrange(0, m));
}

proof fn lemma_total_split(ds: Seq<u64>, a: int, m: int)
    requires
        0 <= a <= m < ds.len(),
    ensures
        total(ds.subrange(a, m + 1)) == total(ds.subrange(a, m)) + ds[m],
{
    assert(ds.subrange(a, m + 1).drop_last() =~= ds.subrange(a, m));
}

proof fn lemma_cooldown_since(e: Entity, ins: Seq<Input>, ds: Seq<u64>, i: int, m: int)
    requires
        e.wf(),
        e.player is Some,
        ins.len() == ds.len(),
        0 <= i < m < ds.len(),
        shoots_on(e, ins, ds, i),
    ensures
        cooldown_after(e, ins, ds, m).elapsed <= total(ds.subrange(i + 1, m)),
        cooldown_after(e, ins, ds, m).duration == cooldown_after(e, ins, ds, i).duration,
    decreases m - i,
{
    if m == i + 1 {
        lemma_cooldown_step(e, ins, ds, i);
    } else {
        lemma_cooldown_since(e, ins, ds, i, m - 1);
        lemma_cooldown_step(e, ins, ds, m - 1);
        lemma_total_split(ds, i + 1, m - 1);
    }
}

/// However the actions are held, two shots of one actor are at least one
/// full cooldown period apart: the ticks after the first shot, up to and
/// including the tick of the second, add up to the cooldown's duration or
/// more.
pub proof fn lemma_shots_spaced(e: Entity, ins: Seq<Input>, ds: Seq<u64>, i: int, j: int)
    requires
        e.wf(),
        e.player is Some,
        ins.len() == ds.len(),
        0 <= i < j < ds.len(),
        shoots_on(e, ins, ds, i),
        shoots_on(e, ins, ds, j),
    ensures
        total(ds.subrange(i + 1, j + 1)) >= e.player->Some_0.shooting_cooldown.duration,
{
    lemma_cooldown_since(e, ins, ds, i, j);
    lemma_cooldown_step(e, ins, ds, j);
    lemma_total_split(ds, i + 1, j);
    lemma_run_player(e, ins.subrange(0, i), ds.subrange(0, i));
}

/// A static entity is never moved and never given a velocity, however many
/// ticks run and whatever actions are held.
pub proof fn lemma_static_untouched(e: Entity, ins: Seq<Input>, ds: Seq<u64>)
    requires
        e.body == Body::Static,
    ensures
        entity_run(e, ins, ds).body == Body::Static,
        entity_run(e, ins, ds).pos == e.pos,
        entity_run(e, ins, ds).velocity == e.velocity,
    decreases ds.len(),
{
    if ds.len() > 0 && ins.len() > 0 {
        lemma_static_untouched(e, ins.drop_last(), ds.drop_last());
    }
}

/// The entity after a write of velocity `v` aimed at `id`: only a dynamic
/// body accepts it.
pub open spec fn velocity_written(e: Entity, id: EntityId, v: Vec2) -> Entity {
    if e.id == id && e.body == Body::Dynamic {
        Entity { velocity: v, ..e }
    } else {
        e
    }
}

/// The entity after the physics service reports position `p` for `id`:
/// only a dynamic body, whose transform physics owns, takes it.
pub open spec fn transform_synced(e: Entity, id: EntityId, p: Vec2) -> Entity {
    if e.id == id && e.body == Body::Dynamic {
        Entity { pos: p, ..e }
    } else {
        e
    }
}

pub open spec fn is_dynamic(s: Seq<Entity>, id: EntityId) -> bool {
    exists|i: int| 0 <= i < s.len() && (#[trigger] s[i]).id == id && s[i].body == Body::Dynamic
}

impl World {
    /// Requests velocity `v` for the entity `id`. Only a live dynamic body
    /// accepts it; returns whether one did.
    pub fn set_velocity(&mut self, id: EntityId, v: Vec2) -> (r: bool)
        requires
            old(self).wf(),
        ensures
            final(self).wf(),
            final(self).next_id == old(self).next_id,
            final(self).entities@ == old(self).entities@.map_values(
                |e: Entity| velocity_written(e, id, v),
            ),
            r == is_dynamic(old(self).entities@, id),
    {
        let ghost s = self.entities@;
        let mut out: Vec<Entity> = Vec::new();
        let mut hit = false;
        let mut i: usize = 0;
        while i < self.entities.len()
            invariant
                s == self.entities@,
                i <= s.len(),
                out@.len() == i,
                forall|j: int| 0 <= j < i ==> out@[j] == velocity_written(s[j], id, v),
                hit == exists|j: int|
                    0 <= j < i && (#[trigger] s[j]).id == id && s[j].body == Body::Dynamic,
            decreases s.len() - i,
        {
            let e = self.entities[i];
            if e.id == id && e.body == Body::Dynamic {
                hit = true;
                out.push(Entity { velocity: v, ..e });
            } else {
                out.push(e);
            }
            i = i + 1;
        }
        proof {
            assert(out@ =~= s.map_values(|e: Entity| velocity_written(e, id, v)));
        }
        self.entities = out;
        hit
    }

    /// Records the position that the physics service reports for `id`.
    /// Only a live dynamic body takes it; returns whether one did.
    pub fn sync_transform(&mut self, id: EntityId, p: Vec2) -> (r: bool)
        requires
            old(self).wf(),
        ensures
            final(self).wf(),
            final(self).next_id == old(self).next_id,
            final(self).entities@ == old(self).entities@.map_values(
                |e: Entity| transform_synced(e, id, p),
            ),
            r == is_dynamic(old(self).entities@, id),
    {
        let ghost s = self.entities@;
        let mut out: Vec<Entity> = Vec::new();
        let mut hit = false;
        let mut i: usize = 0;
        while i < self.entities.len()
            invariant
                s == self.entities@,
                i <= s.len(),
                out@.len() == i,
                forall|j: int| 0 <= j < i ==> out@[j] == transform_synced(s[j], id, p),
                hit == exists|j: int|
                    0 <= j < i && (#[trigger] s[j]).id == id && s[j].body == Body::Dynamic,
            decreases s.len() - i,
        {
            let e = self.entities[i];
            if e.id == id && e.body == Body::Dynamic {
                hit = true;
                out.push(Entity { pos: p, ..e });
            } else {
                out.push(e);
            }
            i = i + 1;
        }
        proof {
            assert(out@ =~= s.map_values(|e: Entity| transform_synced(e, id, p)));
        }
        self.entities = out;
        hit
    }
}

} // verus!
