//! Scoped handles into the store: an archetype partition orthogonal to the
//! component-type partition, and the `SubWorld` combining the two.

use vstd::prelude::*;
use crate::access::ComponentAccess;
use crate::access::Error;
use crate::entry::EntryMut;
use crate::entry::EntryRef;
use crate::permissions::ComponentTypeId;
use crate::permissions::PermissionSet;
use crate::world::Entity;
use crate::world::World;

verus! {

/// Returns whether `v` holds the archetype index `i`.
fn index_vec_contains(v: &Vec<usize>, i: usize) -> (b: bool)
    ensures
        b == v@.contains(i),
{
    let mut k: usize = 0;
    while k < v.len()
        invariant
            k <= v@.len(),
            forall|j: int| 0 <= j < k ==> v@[j] != i,
        decreases v@.len() - k,
    {
        if v[k] == i {
            return true;
        }
        k += 1;
    }
    false
}

/// Copies a vector of archetype indices.
fn copy_indices(v: &Vec<usize>) -> (r: Vec<usize>)
    ensures
        r@ == v@,
{
    let mut r: Vec<usize> = Vec::new();
    let mut i: usize = 0;
    while i < v.len()
        invariant
            i <= v@.len(),
            r@ == v@.take(i as int),
        decreases v@.len() - i,
    {
        r.push(v[i]);
        assert(v@.take(i as int).push(v@[i as int]) =~= v@.take(i + 1));
        i += 1;
    }
    assert(v@.take(v@.len() as int) =~= v@);
    r
}

/// Some archetype index lies in both sets.
pub open spec fn overlap(a: Seq<usize>, b: Seq<usize>) -> bool {
    exists|i: usize| a.contains(i) && b.contains(i)
}

/// Describes which archetypes a handle may touch.
#[derive(Debug)]
pub enum ArchetypeAccess {
    /// All archetypes.
    All,
    /// Only the archetypes whose index is listed.
    Only(Vec<usize>),
}

impl ArchetypeAccess {
    /// The handle may touch entities of archetype `ai`.
    pub open spec fn allows(self, ai: usize) -> bool {
        match self {
            ArchetypeAccess::All => true,
            ArchetypeAccess::Only(v) => v@.contains(ai),
        }
    }

    /// Two accesses are provably disjoint only when both are restricted and
    /// their index sets share nothing; an unrestricted access is never
    /// disjoint from anything.
    pub open spec fn spec_is_disjoint(self, other: ArchetypeAccess) -> bool {
        match self {
            ArchetypeAccess::All => false,
            ArchetypeAccess::Only(mine) => match other {
                ArchetypeAccess::All => false,
                ArchetypeAccess::Only(theirs) => !overlap(mine@, theirs@),
            },
        }
    }

    /// Decides whether the two accesses cover disjoint archetype sets.
    pub fn is_disjoint(&self, other: &ArchetypeAccess) -> (b: bool)
        ensures
            b == self.spec_is_disjoint(*other),
    {
        match self {
            ArchetypeAccess::All => false,
            ArchetypeAccess::Only(mine) => match other {
                ArchetypeAccess::All => false,
                ArchetypeAccess::Only(theirs) => {
                    let mut k: usize = 0;
                    while k < mine.len()
                        invariant
                            k <= mine@.len(),
                            *self == ArchetypeAccess::Only(*mine),
                            *other == ArchetypeAccess::Only(*theirs),
                            forall|j: int| 0 <= j < k ==> !theirs@.contains(#[trigger] mine@[j]),
                        decreases mine@.len() - k,
                    {
                        if index_vec_contains(theirs, mine[k]) {
                            proof {
                                let i0 = mine@[k as int];
                                assert(mine@.contains(i0) && theirs@.contains(i0));
                                assert(overlap(mine@, theirs@));
                            }
                            return false;
                        }
                        k += 1;
                    }
                    proof {
                        assert(!overlap(mine@, theirs@)) by {
                            if overlap(mine@, theirs@) {
                                let i = choose|i: usize| mine@.contains(i) && theirs@.contains(i);
                                let j = choose|j: int| 0 <= j < mine@.len() && mine@[j] == i;
                                assert(!theirs@.contains(mine@[j]));
                            }
                        }
                    }
                    true
                },
            },
        }
    }

    /// Copies the access. The copy allows exactly the same archetypes.
    pub fn duplicate(&self) -> (r: ArchetypeAccess)
        ensures
            forall|ai: usize| r.allows(ai) == self.allows(ai),
    {
        match self {
            ArchetypeAccess::All => ArchetypeAccess::All,
            ArchetypeAccess::Only(v) => ArchetypeAccess::Only(copy_indices(v)),
        }
    }
}

/// A handle over a subset of a world: a component-type access descriptor
/// plus an optional archetype restriction. A `SubWorld` does not own the
/// entities; the world it scopes is passed to each operation.
#[derive(Debug)]
pub struct SubWorld {
    pub components: ComponentAccess,
    pub archetypes: Option<ArchetypeAccess>,
}

impl SubWorld {
    pub open spec fn wf(self) -> bool {
        self.components.wf()
    }

    /// The handle may touch entities of archetype `ai`.
    pub open spec fn allows_arch(self, ai: usize) -> bool {
        match self.archetypes {
            Option::None => true,
            Option::Some(a) => a.allows(ai),
        }
    }

    /// The handle over a whole world: every component type and every
    /// archetype, readable and writable.
    pub fn full() -> (s: SubWorld)
        ensures
            s.wf(),
            s.components == ComponentAccess::All,
            s.archetypes is None,
            forall|t: ComponentTypeId| s.components.allows_read(t) && s.components.allows_write(t),
            forall|ai: usize| s.allows_arch(ai),
    {
        SubWorld { components: ComponentAccess::All, archetypes: None }
    }

    /// Decides whether this handle may touch archetype `ai`.
    pub fn allows_archetype(&self, ai: usize) -> (b: bool)
        ensures
            b == self.allows_arch(ai),
    {
        match &self.archetypes {
            Option::None => true,
            Option::Some(a) => match a {
                ArchetypeAccess::All => true,
                ArchetypeAccess::Only(v) => index_vec_contains(v, ai),
            },
        }
    }

    /// Splits the handle in two along the requested permissions: the left
    /// handle holds exactly `requested`, the right whatever can still be
    /// held next to it, both scoped to this handle's archetypes. Fails with
    /// `PermissionExceeded` exactly when this handle does not hold what is
    /// requested.
    pub fn split(&self, requested: PermissionSet) -> (r: Result<(SubWorld, SubWorld), Error>)
        requires
            self.wf(),
            requested.wf_grant(),
        ensures
            r is Ok <==> self.components.grants(requested),
            r matches Err(e) ==> e == Error::PermissionExceeded,
            r matches Ok(pair) ==> ({
                &&& pair.0.wf()
                &&& pair.1.wf()
                &&& forall|t: ComponentTypeId| pair.0.components.allows_read(t)
                    == requested.has_read(t)
                &&& forall|t: ComponentTypeId| pair.0.components.allows_write(t)
                    == requested.has_write(t)
                &&& forall|t: ComponentTypeId| pair.1.components.allows_read(t)
                    == self.components.residual_read(requested, t)
                &&& forall|t: ComponentTypeId| pair.1.components.allows_write(t)
                    == self.components.residual_write(requested, t)
                &&& forall|ai: usize| pair.0.allows_arch(ai) == self.allows_arch(ai)
                &&& forall|ai: usize| pair.1.allows_arch(ai) == self.allows_arch(ai)
            }),
    {
        match self.components.split(requested) {
            Result::Ok(halves) => {
                let (left, right) = halves;
                let arch_left = match &self.archetypes {
                    Option::None => None,
                    Option::Some(a) => Some(a.duplicate()),
                };
                let arch_right = match &self.archetypes {
                    Option::None => None,
                    Option::Some(a) => Some(a.duplicate()),
                };
                Ok(
                    (
                        SubWorld { components: left, archetypes: arch_left },
                        SubWorld { components: right, archetypes: arch_right },
                    ),
                )
            },
            Result::Err(e) => Err(e),
        }
    }

    /// Opens a read entry for an entity: fails with `AccessDenied` exactly
    /// when the entity is not live or its archetype is outside this
    /// handle's scope. The entry re-checks this handle's component access
    /// on every read.
    pub fn entry_ref(&self, world: &World, e: Entity) -> (r: Result<EntryRef, Error>)
        requires
            world.wf(),
        ensures
            r is Ok <==> world.has_entity(e) && self.allows_arch(world.loc_of(e).archetype),
            r matches Err(er) ==> er == Error::AccessDenied,
            r matches Ok(entry) ==> ({
                &&& entry.entity == e
                &&& forall|t: ComponentTypeId| entry.access.allows_read(t)
                    == self.components.allows_read(t)
                &&& forall|t: ComponentTypeId| entry.access.allows_write(t)
                    == self.components.allows_write(t)
            }),
    {
        match world.locate(e) {
            Option::None => Err(Error::AccessDenied),
            Option::Some(l) => {
                if self.allows_archetype(l.archetype) {
                    Ok(EntryRef { entity: e, access: self.components.duplicate() })
                } else {
                    Err(Error::AccessDenied)
                }
            },
        }
    }

    /// Opens a write entry for an entity, under the same scoping rules as
    /// `entry_ref`. The entry re-checks this handle's component access on
    /// every read and write.
    pub fn entry_mut(&mut self, world: &World, e: Entity) -> (r: Result<EntryMut, Error>)
        requires
            world.wf(),
        ensures
            *final(self) == *old(self),
            r is Ok <==> world.has_entity(e) && old(self).allows_arch(
                world.loc_of(e).archetype,
            ),
            r matches Err(er) ==> er == Error::AccessDenied,
            r matches Ok(entry) ==> ({
                &&& entry.entity == e
                &&& forall|t: ComponentTypeId| entry.access.allows_read(t) == old(
                    self,
                ).components.allows_read(t)
                &&& forall|t: ComponentTypeId| entry.access.allows_write(t) == old(
                    self,
                ).components.allows_write(t)
            }),
    {
        match world.locate(e) {
            Option::None => Err(Error::AccessDenied),
            Option::Some(l) => {
                if self.allows_archetype(l.archetype) {
                    Ok(EntryMut { entity: e, access: self.components.duplicate() })
                } else {
                    Err(Error::AccessDenied)
                }
            },
        }
    }
}

} // verus!
