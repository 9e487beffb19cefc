//! An ordered log of deferred structural edits. Nothing a buffer records
//! touches the world; only `apply`, the single commit point, replays the
//! log, in the order it was recorded, exactly once.

use vstd::prelude::*;
use crate::components::Component;
use crate::permissions::ComponentTypeId;
use crate::world::Entity;
use crate::world::World;
use crate::world::distinct_types;

verus! {

/// One deferred structural edit.
#[derive(Debug, PartialEq)]
pub enum WorldOp {
    /// Create an entity with these components.
    Spawn(Vec<Component>),
    /// Remove an entity.
    Remove(Entity),
    /// Give an entity a component, overwriting any value of the same type.
    AddComponent(Entity, Component),
    /// Take a component of the given type away from an entity.
    RemoveComponent(Entity, ComponentTypeId),
}

impl WorldOp {
    /// A recorded spawn carries no duplicated component type.
    pub open spec fn wf(self) -> bool {
        match self {
            WorldOp::Spawn(components) => distinct_types(components@),
            _ => true,
        }
    }

    /// Applying this op steps the world from `w0` to `w1`. An op naming an
    /// entity that is no longer live leaves the world unchanged.
    pub open spec fn applies(self, w0: World, w1: World) -> bool {
        match self {
            WorldOp::Spawn(components) => exists|e: Entity|
                {
                    &&& !w0.has_entity(e)
                    &&& #[trigger] w1.has_entity(e)
                    &&& w1.row_of(e) == components@
                    &&& w1.same_except(w0, e)
                },
            WorldOp::Remove(e) => {
                &&& !w1.has_entity(e)
                &&& w1.same_except(w0, e)
            },
            WorldOp::AddComponent(e, c) => {
                &&& w1.same_except(w0, e)
                &&& forall|e2: Entity| w1.has_entity(e2) == w0.has_entity(e2)
                &&& w0.has_entity(e) ==> w1.components_of(e) == w0.components_of(e).insert(
                    c.spec_type_id(),
                    c,
                )
                &&& !w0.has_entity(e) ==> w1 == w0
            },
            WorldOp::RemoveComponent(e, t) => {
                &&& w1.same_except(w0, e)
                &&& forall|e2: Entity| w1.has_entity(e2) == w0.has_entity(e2)
                &&& w0.entity_has(e, t) ==> w1.components_of(e) == w0.components_of(e).remove(t)
                &&& !w0.entity_has(e, t) ==> w1 == w0
            },
        }
    }
}

/// The world the replay has reached just before op `i`: the starting world
/// for the first op, and the outcome of the previous op after that.
pub open spec fn world_before(w0: World, trace: Seq<World>, i: int) -> World {
    if i == 0 {
        w0
    } else {
        trace[i - 1]
    }
}

/// `trace` witnesses a replay of `ops` in order from `w0` to `w1`:
/// `trace[i]` is the world after op `i`, each op steps the world the replay
/// had reached, and the last op reaches `w1`.
pub open spec fn replays_to(w0: World, ops: Seq<WorldOp>, trace: Seq<World>, w1: World) -> bool {
    &&& trace.len() == ops.len()
    &&& forall|i: int|
        0 <= i < ops.len() ==> ops[i].applies(#[trigger] world_before(w0, trace, i), trace[i])
    &&& w1 == if ops.len() == 0 {
        w0
    } else {
        trace.last()
    }
}

/// An ordered log of deferred structural edits, consumed exactly once at
/// its commit point.
#[derive(Debug)]
pub struct CommandBuffer {
    pub ops: Vec<WorldOp>,
}

impl CommandBuffer {
    /// Every recorded op can be replayed.
    pub open spec fn wf(self) -> bool {
        forall|i: int| 0 <= i < self.ops@.len() ==> (#[trigger] self.ops@[i]).wf()
    }

    /// An empty buffer.
    pub fn new() -> (b: CommandBuffer)
        ensures
            b.ops@.len() == 0,
            b.wf(),
    {
        CommandBuffer { ops: Vec::new() }
    }

    /// Records spawning an entity with these components. The world is not
    /// touched: the entity exists only after `apply`.
    pub fn push(&mut self, components: Vec<Component>)
        requires
            distinct_types(components@),
        ensures
            final(self).ops@ == old(self).ops@.push(WorldOp::Spawn(components)),
            old(self).wf() ==> final(self).wf(),
    {
        self.ops.push(WorldOp::Spawn(components));
        proof {
            record_keeps_wf(*old(self), *self);
        }
    }

    /// Records removing an entity. The world is not touched: the entity
    /// stays visible to every query until `apply`.
    pub fn remove(&mut self, e: Entity)
        ensures
            final(self).ops@ == old(self).ops@.push(WorldOp::Remove(e)),
            old(self).wf() ==> final(self).wf(),
    {
        self.ops.push(WorldOp::Remove(e));
        proof {
            record_keeps_wf(*old(self), *self);
        }
    }

    /// Records giving an entity a component.
    pub fn add_component(&mut self, e: Entity, c: Component)
        ensures
            final(self).ops@ == old(self).ops@.push(WorldOp::AddComponent(e, c)),
            old(self).wf() ==> final(self).wf(),
    {
        self.ops.push(WorldOp::AddComponent(e, c));
        proof {
            record_keeps_wf(*old(self), *self);
        }
    }

    /// Records taking a component of type `t` away from an entity.
    pub fn remove_component(&mut self, e: Entity, t: ComponentTypeId)
        ensures
            final(self).ops@ == old(self).ops@.push(WorldOp::RemoveComponent(e, t)),
            old(self).wf() ==> final(self).wf(),
    {
        self.ops.push(WorldOp::RemoveComponent(e, t));
        proof {
            record_keeps_wf(*old(self), *self);
        }
    }

    /// Replays the recorded ops against the world in first-in-first-out
    /// order, draining the buffer: applying the same buffer again is a
    /// no-op over an already-empty log.
    pub fn apply(&mut self, world: &mut World) -> (trace: Ghost<Seq<World>>)
        requires
            old(self).wf(),
            old(world).wf(),
        ensures
            final(world).wf(),
            final(self).ops@.len() == 0,
            replays_to(*old(world), old(self).ops@, trace@, *final(world)),
    {
        let ghost all = old(self).ops@;
        proof {
            assert(self.ops.len() == all.len());
        }
        let mut done: usize = 0;
        let ghost mut worlds: Seq<World> = Seq::empty();
        while self.ops.len() > 0
            invariant
                world.wf(),
                all.len() <= usize::MAX,
                done == all.len() - self.ops@.len(),
                self.ops@ == all.skip(done as int),
                forall|i: int| 0 <= i < all.len() ==> (#[trigger] all[i]).wf(),
                worlds.len() == done,
                forall|i: int|
                    0 <= i < done ==> all[i].applies(
                        #[trigger] world_before(*old(world), worlds, i),
                        worlds[i],
                    ),
                *world == if done == 0 {
                    *old(world)
                } else {
                    worlds.last()
                },
            decreases self.ops@.len(),
        {
            let ghost before = *world;
            let op = self.ops.remove(0);
            proof {
                assert(all.skip(done as int)[0] == all[done as int]);
                assert(self.ops@ =~= all.skip(done as int + 1));
            }
            match op {
                WorldOp::Spawn(components) => {
                    let ghost compseq = components@;
                    let e = world.push(components);
                    proof {
                        assert(!before.has_entity(e) && world.has_entity(e) && world.row_of(e)
                            == compseq && world.same_except(before, e));
                        assert(WorldOp::Spawn(components).applies(before, *world));
                    }
                },
                WorldOp::Remove(e) => {
                    let _ = world.remove(e);
                },
                WorldOp::AddComponent(e, c) => {
                    let _ = world.add_component(e, c);
                },
                WorldOp::RemoveComponent(e, t) => {
                    let _ = world.remove_component(e, t);
                },
            }
            proof {
                assert(done + 1 <= all.len());
                assert(all[done as int].applies(before, *world));
                let ghost prev = worlds;
                worlds = worlds.push(*world);
                assert(world_before(*old(world), worlds, done as int) == before);
                assert forall|i: int|
                    0 <= i < done + 1 implies all[i].applies(
                        #[trigger] world_before(*old(world), worlds, i),
                        worlds[i],
                    ) by {
                    if i < done {
                        assert(all[i].applies(world_before(*old(world), prev, i), prev[i]));
                        assert(worlds[i] == prev[i]);
                        if i > 0 {
                            assert(worlds[i - 1] == prev[i - 1]);
                        }
                        assert(world_before(*old(world), worlds, i) == world_before(
                            *old(world),
                            prev,
                            i,
                        ));
                    }
                }
            }
            done += 1;
        }
        Ghost(worlds)
    }
}

/// Pushing one well-formed op onto a well-formed log keeps it well-formed.
proof fn record_keeps_wf(b0: CommandBuffer, b1: CommandBuffer)
    requires
        b1.ops@.len() == b0.ops@.len() + 1,
        forall|i: int| 0 <= i < b0.ops@.len() ==> b1.ops@[i] == b0.ops@[i],
        b1.ops@[b0.ops@.len() as int].wf(),
    ensures
        b0.wf() ==> b1.wf(),
{
    if b0.wf() {
        assert forall|i: int| 0 <= i < b1.ops@.len() implies (#[trigger] b1.ops@[i]).wf() by {
            if i < b0.ops@.len() {
                assert(b0.ops@[i].wf());
            }
        }
    }
}

} // verus!
