use vstd::prelude::*;

use crate::motion::Vec2;
use crate::systems::{ids_of, with_ids, FIRE_COOLDOWN};
use crate::timer::Timer;
use crate::world::{Body, Entity, EntityId, Field, Player, Shape, World};

verus! {

/// Micro-units in one field unit.
pub const UNIT: i64 = 1_000_000;

/// Width of the field, in units.
pub const WIDTH: i64 = 1280;

/// Height of the field, in units.
pub const HEIGHT: i64 = 720;

pub open spec fn at(x: int, y: int, body: Body, shape: Shape) -> Entity {
    Entity {
        id: EntityId { index: 0 },
        pos: Vec2 { x: x as i64, y: y as i64 },
        velocity: Vec2 { x: 0, y: 0 },
        body,
        shape,
        player: None,
        bullet: None,
        lifetime: None,
        field: None,
    }
}

pub open spec fn cuboid(half_width: int, half_height: int) -> Shape {
    Shape::Cuboid { half_width: (half_width * UNIT) as i64, half_height: (half_height * UNIT) as i64 }
}

/// The field's backdrop and the ground strip drawn across it.
pub open spec fn board() -> Seq<Entity> {
    seq![
        Entity { field: Some(Field {  }), ..at(0, 0, Body::Static, cuboid((WIDTH / 2) as int, (HEIGHT / 2) as int)) },
        at(0, -100 * UNIT, Body::Static, cuboid(1000, 50)),
    ]
}

/// The controlled actor: kinematic, near the left edge, with its cooldown
/// starting from zero.
pub open spec fn actor() -> Seq<Entity> {
    seq![
        Entity {
            player: Some(
                Player {
                    shooting_cooldown: Timer { duration: FIRE_COOLDOWN, elapsed: 0 },
                    bullet_offset: Vec2 { x: 0, y: 0 },
                },
            ),
            ..at(-590 * UNIT, 0, Body::Kinematic, cuboid(20, 20))
        },
    ]
}

/// The static platform along the bottom, a falling box, and a wall.
pub open spec fn geometry() -> Seq<Entity> {
    seq![
        at(0, 0 - (HEIGHT / 2) * UNIT, Body::Static, cuboid(WIDTH as int, 50)),
        at(0, 400 * UNIT, Body::Dynamic, cuboid(20, 20)),
        at(-200 * UNIT, -100 * UNIT, Body::Static, cuboid(10, 60)),
    ]
}

fn place(x: i64, y: i64, body: Body, half_width: i64, half_height: i64) -> (e: Entity)
    requires
        -1_000_000 <= half_width <= 1_000_000,
        -1_000_000 <= half_height <= 1_000_000,
    ensures
        e == at(x as int, y as int, body, cuboid(half_width as int, half_height as int)),
        e.wf(),
{
    Entity::new(
        Vec2 { x, y },
        body,
        Shape::Cuboid { half_width: half_width * UNIT, half_height: half_height * UNIT },
    )
}

impl World {
    /// Spawns `items` in order under consecutive fresh ids.
    pub fn spawn_batch(&mut self, items: Vec<Entity>) -> (ids: Vec<EntityId>)
        requires
            old(self).wf(),
            old(self).next_id + items@.len() < u64::MAX,
            forall|k: int| 0 <= k < items@.len() ==> (#[trigger] items@[k]).wf(),
        ensures
            final(self).wf(),
            final(self).next_id == old(self).next_id + items@.len(),
            final(self).entities@ == old(self).entities@ + with_ids(
                items@,
                old(self).next_id as int,
            ),
            ids@ == ids_of(with_ids(items@, old(self).next_id as int)),
    {
        let ghost s = self.entities@;
        let ghost n0 = self.next_id;
        let mut ids: Vec<EntityId> = Vec::new();
        let mut k: usize = 0;
        while k < items.len()
            invariant
                self.wf(),
                self.next_id == n0 + k,
                k <= items@.len(),
                n0 + items@.len() < u64::MAX,
                forall|j: int| 0 <= j < items@.len() ==> (#[trigger] items@[j]).wf(),
                self.entities@ == s + with_ids(items@.subrange(0, k as int), n0 as int),
                ids@ == ids_of(with_ids(items@.subrange(0, k as int), n0 as int)),
            decreases items@.len() - k,
        {
            let id = self.spawn(items[k]);
            proof {
                assert(with_ids(items@.subrange(0, k + 1), n0 as int) =~= with_ids(
                    items@.subrange(0, k as int),
                    n0 as int,
                ).push(Entity { id: EntityId { index: (n0 + k) as u64 }, ..items@[k as int] }));
            }
            match id {
                Some(i) => ids.push(i),
                None => {},
            }
            k = k + 1;
            proof {
                assert(ids@ =~= ids_of(with_ids(items@.subrange(0, k as int), n0 as int)));
            }
        }
        proof {
            assert(items@.subrange(0, items@.len() as int) =~= items@);
        }
        ids
    }

    /// Spawns the field's backdrop and the ground strip.
    pub fn setup_board(&mut self) -> (ids: Vec<EntityId>)
        requires
            old(self).wf(),
            old(self).next_id + 2 < u64::MAX,
        ensures
            final(self).wf(),
            final(self).entities@ == old(self).entities@ + with_ids(board(), old(self).next_id as int),
            final(self).next_id == old(self).next_id + 2,
            ids@ == ids_of(with_ids(board(), old(self).next_id as int)),
    {
        let mut backdrop = place(0, 0, Body::Static, WIDTH / 2, HEIGHT / 2);
        backdrop.field = Some(Field {  });
        let items = vec![backdrop, place(0, -100 * UNIT, Body::Static, 1000, 50)];
        proof {
            assert(items@ =~= board());
        }
        self.spawn_batch(items)
    }

    /// Spawns the controlled actor.
    pub fn spawn_player(&mut self) -> (ids: Vec<EntityId>)
        requires
            old(self).wf(),
            old(self).next_id + 1 < u64::MAX,
        ensures
            final(self).wf(),
            final(self).entities@ == old(self).entities@ + with_ids(actor(), old(self).next_id as int),
            final(self).next_id == old(self).next_id + 1,
            ids@ == ids_of(with_ids(actor(), old(self).next_id as int)),
    {
        let mut e = place(-590 * UNIT, 0, Body::Kinematic, 20, 20);
        e.player = Some(
            Player {
                shooting_cooldown: Timer::new(FIRE_COOLDOWN),
                bullet_offset: Vec2 { x: 0, y: 0 },
            },
        );
        let items = vec![e];
        proof {
            assert(items@ =~= actor());
        }
        self.spawn_batch(items)
    }

    /// Spawns the platform, the falling box and the wall.
    pub fn setup_physics(&mut self) -> (ids: Vec<EntityId>)
        requires
            old(self).wf(),
            old(self).next_id + 3 < u64::MAX,
        ensures
            final(self).wf(),
            final(self).entities@ == old(self).entities@ + with_ids(
                geometry(),
                old(self).next_id as int,
            ),
            final(self).next_id == old(self).next_id + 3,
            ids@ == ids_of(with_ids(geometry(), old(self).next_id as int)),
    {
        let bottom: i64 = 0 - (HEIGHT / 2) * UNIT;
        let items = vec![
            place(0, bottom, Body::Static, WIDTH, 50),
            place(0, 400 * UNIT, Body::Dynamic, 20, 20),
            place(-200 * UNIT, -100 * UNIT, Body::Static, 10, 60),
        ];
        proof {
            assert(items@ =~= geometry());
        }
        self.spawn_batch(items)
    }
}

} // verus!
