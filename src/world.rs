use vstd::prelude::*;

use crate::entity_map::{cleared_fwd, set_maps, Entity, EntityMap, MapKey};
use crate::game::{Id, Position};
use crate::rules::ActionResult;
use crate::session::SpawnedUnit;

verus! {

/// The world after the piece `e` moved to `p`.
pub open spec fn moved(world: Seq<SpawnedUnit>, e: Entity, p: Position) -> Seq<SpawnedUnit> {
    world.map_values(
        |u: SpawnedUnit|
            if u.entity == e {
                SpawnedUnit { position: p, ..u }
            } else {
                u
            },
    )
}

/// The world without the piece `e`.
pub open spec fn despawned(world: Seq<SpawnedUnit>, e: Entity) -> Seq<SpawnedUnit> {
    world.filter(|u: SpawnedUnit| u.entity != e)
}

/// Drops `entity` from an index, both directions.
fn forget<K: MapKey>(map: &mut EntityMap<K>, entity: &Entity)
    requires
        old(map).wf(),
    ensures
        final(map).wf(),
        final(map).fwd() == cleared_fwd(old(map).fwd(), old(map).rev(), *entity),
        final(map).rev() == old(map).rev().remove(*entity),
{
    let ghost rev0 = map.rev();
    if map.remove_entity(entity).is_none() {
        assert(rev0.remove(*entity) =~= rev0);
    }
}

/// Removes the piece `e` from the world and from both indexes, so that no
/// square or identity still leads to it.
pub fn despawn(
    world: &mut Vec<SpawnedUnit>,
    positions: &mut EntityMap<Position>,
    ids: &mut EntityMap<Id>,
    e: Entity,
)
    requires
        old(positions).wf(),
        old(ids).wf(),
    ensures
        final(positions).wf(),
        final(ids).wf(),
        final(world)@ == despawned(old(world)@, e),
        final(positions).fwd() == cleared_fwd(old(positions).fwd(), old(positions).rev(), e),
        final(positions).rev() == old(positions).rev().remove(e),
        final(ids).fwd() == cleared_fwd(old(ids).fwd(), old(ids).rev(), e),
        final(ids).rev() == old(ids).rev().remove(e),
{
    let mut kept: Vec<SpawnedUnit> = Vec::new();
    let mut i: usize = 0;
    while i < world.len()
        invariant
            i <= world@.len(),
            kept@ == despawned(world@.subrange(0, i as int), e),
        decreases world@.len() - i,
    {
        proof {
            assert(world@.subrange(0, i as int + 1).drop_last() =~= world@.subrange(0, i as int));
            reveal(Seq::filter);
        }
        let u = world[i];
        if u.entity.0 != e.0 {
            kept.push(u);
        }
        i = i + 1;
    }
    assert(world@.subrange(0, world@.len() as int) =~= world@);
    *world = kept;
    forget(positions, &e);
    forget(ids, &e);
}

/// Applies one change that an executed move asks for. A piece that drops
/// to zero health is despawned; a piece that moves is indexed under its new
/// square.
pub fn apply_action_result(
    world: &mut Vec<SpawnedUnit>,
    positions: &mut EntityMap<Position>,
    ids: &mut EntityMap<Id>,
    result: ActionResult,
)
    requires
        old(positions).wf(),
        old(ids).wf(),
    ensures
        final(positions).wf(),
        final(ids).wf(),
        match result {
            ActionResult::SetPosition(e, p) => {
                &&& final(world)@ == moved(old(world)@, e, p)
                &&& (final(positions).fwd(), final(positions).rev()) == set_maps(
                    old(positions).fwd(),
                    old(positions).rev(),
                    p,
                    e,
                )
                &&& final(ids).fwd() == old(ids).fwd()
                &&& final(ids).rev() == old(ids).rev()
            },
            ActionResult::SetHealth(e, h) => if h.0 == 0 {
                &&& final(world)@ == despawned(old(world)@, e)
                &&& final(positions).fwd() == cleared_fwd(old(positions).fwd(), old(positions).rev(), e)
                &&& final(positions).rev() == old(positions).rev().remove(e)
                &&& final(ids).fwd() == cleared_fwd(old(ids).fwd(), old(ids).rev(), e)
                &&& final(ids).rev() == old(ids).rev().remove(e)
            } else {
                &&& final(world)@ == old(world)@
                &&& final(positions).fwd() == old(positions).fwd()
                &&& final(positions).rev() == old(positions).rev()
                &&& final(ids).fwd() == old(ids).fwd()
                &&& final(ids).rev() == old(ids).rev()
            },
        },
{
    match result {
        ActionResult::SetPosition(e, p) => {
            let mut i: usize = 0;
            let ghost before = world@;
            while i < world.len()
                invariant
                    i <= world@.len(),
                    world@.len() == before.len(),
                    forall|k: int| 0 <= k < i ==> #[trigger] world@[k] == moved(before, e, p)[k],
                    forall|k: int| i <= k < world@.len() ==> #[trigger] world@[k] == before[k],
                decreases world@.len() - i,
            {
                let u = world[i];
                if u.entity.0 == e.0 {
                    world.set(i, SpawnedUnit { position: p, ..u });
                }
                i = i + 1;
            }
            assert(world@ =~= moved(before, e, p));
            positions.set(p, e);
        },
        ActionResult::SetHealth(e, h) => {
            if h.0 == 0 {
                despawn(world, positions, ids, e);
            }
        },
    }
}

} // verus!
