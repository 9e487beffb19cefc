//! Tri-state access descriptor over a permission set, with the split
//! algorithm that partitions one handle's access into two provably
//! non-aliasing halves.

use vstd::prelude::*;
use crate::permissions::ComponentTypeId;
use crate::permissions::PermissionSet;
use crate::permissions::copy_ids;

verus! {

/// The two failure modes of the store.
///
/// `AccessDenied` is recoverable: a caller touched a component type or an
/// archetype its handle does not cover. `PermissionExceeded` is raised at
/// split time when a handle asks to carve out access it does not itself
/// hold; it indicates an inconsistent scheduler configuration.
#[derive(Clone, Copy, Debug, PartialEq, Eq, Structural)]
pub enum Error {
    AccessDenied,
    PermissionExceeded,
}

/// Describes which component types a handle may touch.
#[derive(Debug)]
pub enum ComponentAccess {
    /// Every type is accessible for reads and writes.
    All,
    /// Only the listed permissions are accessible; everything else is denied.
    Allow(PermissionSet),
    /// Everything is accessible except the listed operations: reads of the
    /// payload's read set and writes of its write set.
    Disallow(PermissionSet),
}

impl ComponentAccess {
    /// The handle may read components of type `t`.
    pub open spec fn allows_read(self, t: ComponentTypeId) -> bool {
        match self {
            ComponentAccess::All => true,
            ComponentAccess::Allow(p) => p.has_read(t),
            ComponentAccess::Disallow(p) => !p.has_read(t),
        }
    }

    /// The handle may write components of type `t`.
    pub open spec fn allows_write(self, t: ComponentTypeId) -> bool {
        match self {
            ComponentAccess::All => true,
            ComponentAccess::Allow(p) => p.has_write(t),
            ComponentAccess::Disallow(p) => !p.has_write(t),
        }
    }

    /// A grant payload keeps write implying read; a denial payload keeps a
    /// denied read implying a denied write. Both mean the same thing: no
    /// handle is ever entitled to write a type it cannot read.
    pub open spec fn wf(self) -> bool {
        match self {
            ComponentAccess::All => true,
            ComponentAccess::Allow(p) => p.wf_grant(),
            ComponentAccess::Disallow(p) => p.wf_deny(),
        }
    }

    /// The access already covers everything `r` asks for: every requested
    /// read is readable here and every requested write is writable here.
    pub open spec fn grants(self, r: PermissionSet) -> bool {
        forall|t: ComponentTypeId|
            (r.has_read(t) ==> self.allows_read(t)) && (r.has_write(t) ==> self.allows_write(t))
    }

    /// What the right-hand side of a split may still read once `r` has been
    /// granted to the left: nothing `r` writes, everything `r` merely reads
    /// (a concurrent reader is harmless), and otherwise whatever `self`
    /// already allowed.
    pub open spec fn residual_read(self, r: PermissionSet, t: ComponentTypeId) -> bool {
        if r.has_write(t) {
            false
        } else if r.has_read(t) {
            true
        } else {
            self.allows_read(t)
        }
    }

    /// What the right-hand side of a split may still write: nothing `r`
    /// touches at all (a write next to any reader would alias), and
    /// otherwise whatever `self` already allowed.
    pub open spec fn residual_write(self, r: PermissionSet, t: ComponentTypeId) -> bool {
        if r.has_read(t) {
            false
        } else {
            self.allows_write(t)
        }
    }

    /// Decides `self.allows_read(t)`.
    pub fn check_read(&self, t: ComponentTypeId) -> (b: bool)
        ensures
            b == self.allows_read(t),
    {
        match self {
            ComponentAccess::All => true,
            ComponentAccess::Allow(p) => crate::permissions::id_vec_contains(&p.reads, t),
            ComponentAccess::Disallow(p) => !crate::permissions::id_vec_contains(&p.reads, t),
        }
    }

    /// Decides `self.allows_write(t)`.
    pub fn check_write(&self, t: ComponentTypeId) -> (b: bool)
        ensures
            b == self.allows_write(t),
    {
        match self {
            ComponentAccess::All => true,
            ComponentAccess::Allow(p) => crate::permissions::id_vec_contains(&p.writes, t),
            ComponentAccess::Disallow(p) => !crate::permissions::id_vec_contains(&p.writes, t),
        }
    }

    /// Copies the descriptor. The copy allows exactly what the original
    /// allows.
    pub fn duplicate(&self) -> (r: ComponentAccess)
        ensures
            forall|t: ComponentTypeId| r.allows_read(t) == self.allows_read(t),
            forall|t: ComponentTypeId| r.allows_write(t) == self.allows_write(t),
            r.wf() == self.wf(),
    {
        match self {
            ComponentAccess::All => ComponentAccess::All,
            ComponentAccess::Allow(p) => {
                let q = p.duplicate();
                proof {
                    crate::permissions::lemma_same_views_same_wf(q, *p);
                }
                ComponentAccess::Allow(q)
            },
            ComponentAccess::Disallow(p) => {
                let q = p.duplicate();
                proof {
                    crate::permissions::lemma_same_views_same_wf(q, *p);
                }
                ComponentAccess::Disallow(q)
            },
        }
    }

    /// Splits this access into two: the left half allows exactly the
    /// permissions requested, while the right half keeps whatever can still
    /// be held next to them — every type the request writes becomes fully
    /// inaccessible on the right, every type it merely reads stays readable
    /// there but loses its writes, and types the request never mentions keep
    /// the access this handle already had. Fails with `PermissionExceeded`
    /// if and only if the request asks for something this handle does not
    /// hold.
    pub fn split(&self, requested: PermissionSet) -> (res: Result<
        (ComponentAccess, ComponentAccess),
        Error,
    >)
        requires
            self.wf(),
            requested.wf_grant(),
        ensures
            res is Ok <==> self.grants(requested),
            res matches Err(e) ==> e == Error::PermissionExceeded,
            res matches Ok(pair) ==> ({
                &&& pair.0.wf()
                &&& pair.1.wf()
                &&& forall|t: ComponentTypeId| pair.0.allows_read(t) == requested.has_read(t)
                &&& forall|t: ComponentTypeId| pair.0.allows_write(t) == requested.has_write(t)
                &&& forall|t: ComponentTypeId| pair.1.allows_read(t) == self.residual_read(
                    requested,
                    t,
                )
                &&& forall|t: ComponentTypeId| pair.1.allows_write(t) == self.residual_write(
                    requested,
                    t,
                )
            }),
    {
        match self {
            ComponentAccess::All => {
                let denied = incompatible(&requested);
                Ok((ComponentAccess::Allow(requested), ComponentAccess::Disallow(denied)))
            },
            ComponentAccess::Allow(allowed) => {
                if !allowed.is_superset(&requested) {
                    return Err(Error::PermissionExceeded);
                }
                let rest = allowed.subtract(&requested);
                Ok((ComponentAccess::Allow(requested), ComponentAccess::Allow(rest)))
            },
            ComponentAccess::Disallow(denied) => {
                if !denied.is_disjoint(&requested) {
                    return Err(Error::PermissionExceeded);
                }
                let rest = append_incompatible(denied, &requested);
                Ok((ComponentAccess::Allow(requested), ComponentAccess::Disallow(rest)))
            },
        }
    }
}

/// The denial that makes a neighbouring handle compatible with granting `r`
/// somewhere else: every type `r` writes is denied entirely, and every type
/// `r` reads is denied for writing.
fn incompatible(r: &PermissionSet) -> (d: PermissionSet)
    ensures
        forall|t: ComponentTypeId| d.has_read(t) == r.has_write(t),
        forall|t: ComponentTypeId| d.has_write(t) == r.has_read(t),
{
    PermissionSet { reads: copy_ids(&r.writes), writes: copy_ids(&r.reads) }
}

/// Extends an existing denial with the denials granting `r` requires.
fn append_incompatible(denied: &PermissionSet, r: &PermissionSet) -> (d: PermissionSet)
    ensures
        forall|t: ComponentTypeId| d.has_read(t) == (denied.has_read(t) || r.has_write(t)),
        forall|t: ComponentTypeId| d.has_write(t) == (denied.has_write(t) || r.has_read(t)),
{
    let mut d = denied.duplicate();
    let mut i: usize = 0;
    while i < r.writes.len()
        invariant
            i <= r.writes@.len(),
            forall|t: ComponentTypeId|
                d.has_read(t) == (denied.has_read(t) || r.writes@.take(i as int).contains(t)),
            forall|t: ComponentTypeId| d.has_write(t) == denied.has_write(t),
        decreases r.writes@.len() - i,
    {
        d.push_read(r.writes[i]);
        proof {
            assert forall|t: ComponentTypeId|
                d.has_read(t) == (denied.has_read(t) || r.writes@.take(i + 1).contains(t)) by {
                crate::permissions::lemma_contains_push(
                    r.writes@.take(i as int),
                    r.writes@[i as int],
                    t,
                );
                assert(r.writes@.take(i as int).push(r.writes@[i as int]) =~= r.writes@.take(
                    i + 1,
                ));
            }
        }
        i += 1;
    }
    let mut k: usize = 0;
    while k < r.reads.len()
        invariant
            k <= r.reads@.len(),
            forall|t: ComponentTypeId|
                d.has_read(t) == (denied.has_read(t) || r.writes@.take(
                    r.writes@.len() as int,
                ).contains(t)),
            forall|t: ComponentTypeId|
                d.has_write(t) == (denied.has_write(t) || r.reads@.take(k as int).contains(t)),
        decreases r.reads@.len() - k,
    {
        d.push_write(r.reads[k]);
        proof {
            assert forall|t: ComponentTypeId|
                d.has_write(t) == (denied.has_write(t) || r.reads@.take(k + 1).contains(t)) by {
                crate::permissions::lemma_contains_push(
                    r.reads@.take(k as int),
                    r.reads@[k as int],
                    t,
                );
                assert(r.reads@.take(k as int).push(r.reads@[k as int]) =~= r.reads@.take(k + 1));
            }
        }
        k += 1;
    }
    proof {
        assert(r.writes@.take(r.writes@.len() as int) =~= r.writes@);
        assert(r.reads@.take(r.reads@.len() as int) =~= r.reads@);
    }
    d
}

} // verus!
