use vstd::prelude::*;

use crate::motion::{translated, Vec2};
use crate::timer::Timer;

verus! {

/// Identifier of an entity; identifiers are handed out in increasing order
/// and never reused.
#[derive(Clone, Copy, Debug, PartialEq, Eq, Structural)]
pub struct EntityId {
    pub index: u64,
}

/// Who owns an entity's transform.
#[derive(Clone, Copy, Debug, PartialEq, Eq, Structural)]
pub enum Body {
    /// Collidable and immovable: nothing writes its transform or velocity.
    Static,
    /// Gameplay writes its transform; physics does not move it.
    Kinematic,
    /// Physics owns its transform; gameplay only writes its velocity.
    Dynamic,
}

/// Collision and drawing shape, in micro-units.
#[derive(Clone, Copy, Debug, PartialEq, Eq, Structural)]
pub enum Shape {
    /// An axis-aligned box with the given half extents.
    Cuboid { half_width: i64, half_height: i64 },
    /// A disc with the given radius.
    Ball { radius: i64 },
}

/// The playing field's backdrop.
#[derive(Clone, Copy, Debug, PartialEq, Eq, Structural)]
pub struct Field {}

/// The controlled actor.
#[derive(Clone, Copy, Debug, PartialEq, Eq, Structural)]
pub struct Player {
    /// Ready to fire while finished; restarted by each shot.
    pub shooting_cooldown: Timer,
    /// Offset of a fired projectile from the actor's position.
    pub bullet_offset: Vec2,
}

/// A projectile, flying along +X.
#[derive(Clone, Copy, Debug, PartialEq, Eq, Structural)]
pub struct Bullet {
    /// Distance flown per tick, in micro-units.
    pub velocity: i64,
}

/// Time to live: the entity is destroyed when the timer finishes.
#[derive(Clone, Copy, Debug, PartialEq, Eq, Structural)]
pub struct Lifetime {
    pub timer: Timer,
}

/// An entity with its components.
#[derive(Clone, Copy, Debug, PartialEq, Eq)]
pub struct Entity {
    pub id: EntityId,
    /// Position in micro-units.
    pub pos: Vec2,
    /// Velocity in micro-units per second; read by physics for dynamic bodies.
    pub velocity: Vec2,
    pub body: Body,
    pub shape: Shape,
    pub player: Option<Player>,
    pub bullet: Option<Bullet>,
    pub lifetime: Option<Lifetime>,
    pub field: Option<Field>,
}

impl Entity {
    /// The timers that the entity carries are consistent.
    pub open spec fn wf(self) -> bool {
        &&& (self.player is Some ==> self.player->Some_0.shooting_cooldown.wf())
        &&& (self.lifetime is Some ==> self.lifetime->Some_0.timer.wf())
    }

    /// A bare entity at `pos`, with no components yet and a placeholder id
    /// that the store replaces.
    pub fn new(pos: Vec2, body: Body, shape: Shape) -> (e: Entity)
        ensures
            e.id == (EntityId { index: 0 }),
            e.pos == pos,
            e.velocity == (Vec2 { x: 0, y: 0 }),
            e.body == body,
            e.shape == shape,
            e.player is None,
            e.bullet is None,
            e.lifetime is None,
            e.field is None,
            e.wf(),
    {
        Entity {
            id: EntityId { index: 0 },
            pos,
            velocity: Vec2 { x: 0, y: 0 },
            body,
            shape,
            player: None,
            bullet: None,
            lifetime: None,
            field: None,
        }
    }
}

/// Whether the entity's time to live has run out.
pub open spec fn expired(e: Entity) -> bool {
    e.lifetime is Some && e.lifetime->Some_0.timer.is_finished()
}

/// The entities of `s` for which `p` holds, in order.
pub open spec fn retain(s: Seq<Entity>, p: spec_fn(Entity) -> bool) -> Seq<Entity>
    decreases s.len(),
{
    if s.len() == 0 {
        s
    } else if p(s.last()) {
        retain(s.drop_last(), p).push(s.last())
    } else {
        retain(s.drop_last(), p)
    }
}

/// `s` without the entity named `id`.
pub open spec fn without(s: Seq<Entity>, id: EntityId) -> Seq<Entity> {
    retain(s, |e: Entity| e.id != id)
}

/// The entities of `s` whose time to live has not run out.
pub open spec fn survivors(s: Seq<Entity>) -> Seq<Entity> {
    retain(s, |e: Entity| !expired(e))
}

/// The ids of the entities of `s` whose time to live has run out, in order.
pub open spec fn expired_ids(s: Seq<Entity>) -> Seq<EntityId> {
    retain(s, |e: Entity| expired(e)).map_values(|e: Entity| e.id)
}

pub open spec fn has_id(s: Seq<Entity>, id: EntityId) -> bool {
    exists|i: int| 0 <= i < s.len() && (#[trigger] s[i]).id == id
}

/// Ids increase along `s`, all below `bound`, and every entity is consistent.
pub open spec fn ordered_below(s: Seq<Entity>, bound: int) -> bool {
    &&& forall|i: int, j: int| 0 <= i < j < s.len() ==> s[i].id.index < s[j].id.index
    &&& forall|i: int| 0 <= i < s.len() ==> (#[trigger] s[i]).id.index < bound
    &&& forall|i: int| 0 <= i < s.len() ==> (#[trigger] s[i]).wf()
}

/// Keeping part of an ordered sequence leaves it ordered.
pub proof fn lemma_retain_ordered(s: Seq<Entity>, p: spec_fn(Entity) -> bool, bound: int)
    requires
        ordered_below(s, bound),
    ensures
        ordered_below(retain(s, p), bound),
        retain(s, p).len() <= s.len(),
    decreases s.len(),
{
    if s.len() > 0 {
        let d = s.drop_last();
        assert(ordered_below(d, s.last().id.index as int));
        lemma_retain_ordered(d, p, s.last().id.index as int);
        lemma_retain_ordered(d, p, bound);
    }
}

/// No entity that `retain` keeps fails the test.
pub proof fn lemma_retain_all(s: Seq<Entity>, p: spec_fn(Entity) -> bool)
    ensures
        forall|i: int| 0 <= i < retain(s, p).len() ==> p(#[trigger] retain(s, p)[i]),
        retain(retain(s, p), p) == retain(s, p),
    decreases s.len(),
{
    if s.len() > 0 {
        lemma_retain_all(s.drop_last(), p);
        let r = retain(s, p);
        if p(s.last()) {
            assert(r.drop_last() =~= retain(s.drop_last(), p));
        }
    }
}

/// Ids strictly increase along `s`.
pub open spec fn ids_increasing(s: Seq<Entity>) -> bool {
    forall|i: int, j: int| 0 <= i < j < s.len() ==> s[i].id.index < s[j].id.index
}

/// In a sequence with increasing ids, `retain` keeps exactly the entities
/// that pass the test, each unchanged.
pub proof fn lemma_retain_members(s: Seq<Entity>, p: spec_fn(Entity) -> bool)
    requires
        ids_increasing(s),
    ensures
        ids_increasing(retain(s, p)),
        forall|j: int|
            0 <= j < retain(s, p).len() ==> exists|i: int|
                0 <= i < s.len() && s[i] == #[trigger] retain(s, p)[j] && p(s[i]),
        forall|i: int| 0 <= i < s.len() && p(#[trigger] s[i]) ==> retain(s, p).contains(s[i]),
    decreases s.len(),
{
    if s.len() > 0 {
        let d = s.drop_last();
        lemma_retain_members(d, p);
        let r = retain(s, p);
        let rd = retain(d, p);
        assert forall|j: int| 0 <= j < r.len() implies exists|i: int|
            0 <= i < s.len() && s[i] == #[trigger] r[j] && p(s[i]) by {
            if j < rd.len() {
                let i = choose|i: int| 0 <= i < d.len() && d[i] == rd[j] && p(d[i]);
                assert(s[i] == r[j]);
            } else {
                assert(s[s.len() - 1] == r[j]);
            }
        }
        assert forall|i: int| 0 <= i < s.len() && p(#[trigger] s[i]) implies r.contains(s[i]) by {
            if i < s.len() - 1 {
                assert(d[i] == s[i]);
                assert(rd.contains(d[i]));
                let k = choose|k: int| 0 <= k < rd.len() && rd[k] == d[i];
                assert(r[k] == s[i]);
            } else {
                assert(r[r.len() - 1] == s[i]);
            }
        }
        assert forall|a: int, b: int| 0 <= a < b < r.len() implies r[a].id.index
            < r[b].id.index by {
            if b < rd.len() {
                assert(r[a] == rd[a] && r[b] == rd[b]);
            } else {
                let i = choose|i: int| 0 <= i < d.len() && d[i] == rd[a] && p(d[i]);
                assert(r[a] == s[i]);
                assert(r[b] == s[s.len() - 1]);
            }
        }
    }
}

/// Destroying an id a second time removes nothing more than the first time.
pub proof fn lemma_destroy_idempotent(s: Seq<Entity>, id: EntityId)
    ensures
        without(without(s, id), id) == without(s, id),
        !has_id(without(s, id), id),
{
    lemma_retain_all(s, |e: Entity| e.id != id);
}

/// The entity store: every live entity with its components.
pub struct World {
    pub entities: Vec<Entity>,
    /// The id that the next spawned entity gets.
    pub next_id: u64,
}

impl World {
    pub open spec fn wf(&self) -> bool {
        ordered_below(self.entities@, self.next_id as int)
    }

    /// An empty world.
    pub fn new() -> (w: World)
        ensures
            w.wf(),
            w.entities@.len() == 0,
            w.next_id == 0,
    {
        World { entities: Vec::new(), next_id: 0 }
    }

    pub fn len(&self) -> (r: usize)
        ensures
            r == self.entities@.len(),
    {
        self.entities.len()
    }

    /// Adds `e` under a fresh id, or returns `None`, changing nothing, when
    /// the ids have run out.
    pub fn spawn(&mut self, e: Entity) -> (r: Option<EntityId>)
        requires
            old(self).wf(),
            e.wf(),
        ensures
            final(self).wf(),
            old(self).next_id == u64::MAX ==> r is None && *final(self) == *old(self),
            old(self).next_id < u64::MAX ==> r == Some(EntityId { index: old(self).next_id })
                && final(self).next_id == old(self).next_id + 1 && final(self).entities@ == old(
                self,
            ).entities@.push(Entity { id: EntityId { index: old(self).next_id }, ..e }),
    {
        if self.next_id == u64::MAX {
            return None;
        }
        let id = EntityId { index: self.next_id };
        self.entities.push(Entity { id, ..e });
        self.next_id = self.next_id + 1;
        Some(id)
    }

    /// Index of the entity named `id`, if it is live.
    pub fn find(&self, id: EntityId) -> (r: Option<usize>)
        ensures
            r is None <==> !has_id(self.entities@, id),
            r matches Some(i) ==> i < self.entities@.len() && self.entities@[i as int].id == id,
    {
        let mut i: usize = 0;
        while i < self.entities.len()
            invariant
                i <= self.entities@.len(),
                forall|j: int| 0 <= j < i ==> self.entities@[j].id != id,
            decreases self.entities@.len() - i,
        {
            if self.entities[i].id == id {
                return Some(i);
            }
            i = i + 1;
        }
        None
    }

    /// The entity named `id`, if it is live.
    pub fn get(&self, id: EntityId) -> (r: Option<Entity>)
        ensures
            r is None <==> !has_id(self.entities@, id),
            r matches Some(e) ==> self.entities@.contains(e) && e.id == id,
    {
        match self.find(id) {
            Some(i) => Some(self.entities[i]),
            None => None,
        }
    }

    pub fn contains(&self, id: EntityId) -> (r: bool)
        ensures
            r == has_id(self.entities@, id),
    {
        self.find(id).is_some()
    }

    /// Removes the entity named `id`; returns whether it was live. Destroying
    /// an unknown or already destroyed id changes nothing.
    pub fn destroy(&mut self, id: EntityId) -> (r: bool)
        requires
            old(self).wf(),
        ensures
            final(self).wf(),
            final(self).next_id == old(self).next_id,
            r == has_id(old(self).entities@, id),
            final(self).entities@ == without(old(self).entities@, id),
            !r ==> final(self).entities@ == old(self).entities@,
    {
        let ghost s = self.entities@;
        let mut kept: Vec<Entity> = Vec::new();
        let mut found = false;
        let mut i: usize = 0;
        while i < self.entities.len()
            invariant
                s == self.entities@,
                i <= s.len(),
                kept@ == without(s.subrange(0, i as int), id),
                found == has_id(s.subrange(0, i as int), id),
                !found ==> kept@ == s.subrange(0, i as int),
            decreases s.len() - i,
        {
            let e = self.entities[i];
            proof {
                assert(s.subrange(0, i + 1).drop_last() =~= s.subrange(0, i as int));
                if has_id(s.subrange(0, i + 1), id) && e.id != id {
                    let k = choose|k: int|
                        0 <= k < i + 1 && (#[trigger] s.subrange(0, i + 1)[k]).id == id;
                    assert(s.subrange(0, i as int)[k].id == id);
                }
                if has_id(s.subrange(0, i as int), id) {
                    let k = choose|k: int|
                        0 <= k < i && (#[trigger] s.subrange(0, i as int)[k]).id == id;
                    assert(s.subrange(0, i + 1)[k].id == id);
                }
                if e.id == id {
                    assert(s.subrange(0, i + 1)[i as int].id == id);
                }
            }
            if e.id == id {
                found = true;
            } else {
                kept.push(e);
            }
            i = i + 1;
        }
        proof {
            assert(s.subrange(0, s.len() as int) =~= s);
            lemma_retain_ordered(s, |e: Entity| e.id != id, self.next_id as int);
        }
        self.entities = kept;
        found
    }
}

} // verus!
