//! Per-entity accessors. An entry carries the component access of the
//! handle it was opened through, and re-checks it on every component read
//! or write, so a system can never quietly touch data outside its grant.

use vstd::prelude::*;
use crate::access::ComponentAccess;
use crate::access::Error;
use crate::components::Component;
use crate::permissions::ComponentTypeId;
use crate::world::Entity;
use crate::world::World;

verus! {

/// A read-only accessor for one entity.
#[derive(Debug)]
pub struct EntryRef {
    pub entity: Entity,
    pub access: ComponentAccess,
}

impl EntryRef {
    /// Reads the entity's component of type `t`. Fails with `AccessDenied`
    /// exactly when the entry's access does not allow reading `t`, or the
    /// entity is not live in `world`, or it lacks the type.
    pub fn get_component<'a>(&self, world: &'a World, t: ComponentTypeId) -> (r: Result<
        &'a Component,
        Error,
    >)
        requires
            world.wf(),
        ensures
            r is Ok <==> self.access.allows_read(t) && world.entity_has(self.entity, t),
            r matches Ok(c) ==> *c == world.components_of(self.entity)[t],
            r matches Err(e) ==> e == Error::AccessDenied,
    {
        if !self.access.check_read(t) {
            return Err(Error::AccessDenied);
        }
        match world.get_component(self.entity, t) {
            Option::Some(c) => Ok(c),
            Option::None => Err(Error::AccessDenied),
        }
    }
}

/// A read-write accessor for one entity.
#[derive(Debug)]
pub struct EntryMut {
    pub entity: Entity,
    pub access: ComponentAccess,
}

impl EntryMut {
    /// Reads the entity's component of type `t`, under the same rules as
    /// `EntryRef::get_component`.
    pub fn get_component<'a>(&self, world: &'a World, t: ComponentTypeId) -> (r: Result<
        &'a Component,
        Error,
    >)
        requires
            world.wf(),
        ensures
            r is Ok <==> self.access.allows_read(t) && world.entity_has(self.entity, t),
            r matches Ok(c) ==> *c == world.components_of(self.entity)[t],
            r matches Err(e) ==> e == Error::AccessDenied,
    {
        if !self.access.check_read(t) {
            return Err(Error::AccessDenied);
        }
        match world.get_component(self.entity, t) {
            Option::Some(c) => Ok(c),
            Option::None => Err(Error::AccessDenied),
        }
    }

    /// Overwrites the value of a component the entity already has; the
    /// component's type is taken from the value. Fails with `AccessDenied`,
    /// changing nothing, exactly when the entry's access does not allow
    /// writing that type, or the entity is not live, or it lacks the type.
    pub fn set_component(&self, world: &mut World, c: Component) -> (r: Result<(), Error>)
        requires
            old(world).wf(),
        ensures
            final(world).wf(),
            r is Ok <==> self.access.allows_write(c.spec_type_id()) && old(world).entity_has(
                self.entity,
                c.spec_type_id(),
            ),
            r is Err ==> *final(world) == *old(world),
            r matches Err(e) ==> e == Error::AccessDenied,
            r is Ok ==> final(world).components_of(self.entity) == old(world).components_of(
                self.entity,
            ).insert(c.spec_type_id(), c),
            final(world).same_except(*old(world), self.entity),
            forall|e2: Entity| final(world).has_entity(e2) == old(world).has_entity(e2),
    {
        if !self.access.check_write(c.type_id()) {
            return Err(Error::AccessDenied);
        }
        if world.replace_component(self.entity, c) {
            Ok(())
        } else {
            Err(Error::AccessDenied)
        }
    }
}

} // verus!
