//! The guarantees of the split algebra, stated as standalone theorems over
//! the residual-access functions that `ComponentAccess::split` is proved to
//! implement.

use vstd::prelude::*;
use crate::access::ComponentAccess;
use crate::permissions::ComponentTypeId;
use crate::permissions::PermissionSet;

verus! {

/// Exclusivity: once a request holds write access to a type, the remainder
/// of the split can neither read nor write that type.
pub proof fn lemma_remainder_excludes_writes(
    a: ComponentAccess,
    r: PermissionSet,
    t: ComponentTypeId,
)
    requires
        r.wf_grant(),
        r.has_write(t),
    ensures
        !a.residual_read(r, t),
        !a.residual_write(r, t),
{
}

/// Shared reads: a type the request reads without writing stays readable on
/// the remainder, but its writes are gone from it.
pub proof fn lemma_remainder_keeps_shared_reads(
    a: ComponentAccess,
    r: PermissionSet,
    t: ComponentTypeId,
)
    requires
        r.has_read(t),
        !r.has_write(t),
    ensures
        a.residual_read(r, t),
        !a.residual_write(r, t),
{
}

/// Conservation: a type the request never mentions keeps on the remainder
/// exactly the access the original handle had.
pub proof fn lemma_remainder_conserves_unrequested(
    a: ComponentAccess,
    r: PermissionSet,
    t: ComponentTypeId,
)
    requires
        !r.has_read(t),
        !r.has_write(t),
    ensures
        a.residual_read(r, t) == a.allows_read(t),
        a.residual_write(r, t) == a.allows_write(t),
{
}

/// No re-granting: whenever the remainder of splitting `a` along `r1` still
/// grants a second request `r2`, the two granted halves can never alias a
/// write — no type is writable in one and touchable in the other.
pub proof fn lemma_sibling_grants_never_alias(
    a: ComponentAccess,
    r1: PermissionSet,
    r2: PermissionSet,
    t: ComponentTypeId,
)
    requires
        r1.wf_grant(),
        r2.wf_grant(),
        forall|u: ComponentTypeId|
            (r2.has_read(u) ==> a.residual_read(r1, u)) && (r2.has_write(u) ==> a.residual_write(
                r1,
                u,
            )),
    ensures
        !(r1.has_write(t) && r2.has_read(t)),
        !(r1.has_write(t) && r2.has_write(t)),
        !(r2.has_write(t) && r1.has_read(t)),
{
    assert((r2.has_read(t) ==> a.residual_read(r1, t)) && (r2.has_write(t) ==> a.residual_write(
        r1,
        t,
    )));
}

/// Repeatability: splitting is associative in the sense that the remainder
/// still grants any second request the original handle granted, as long as
/// that second request reads nothing the first writes and writes nothing
/// the first reads.
pub proof fn lemma_split_repeatable(a: ComponentAccess, r1: PermissionSet, r2: PermissionSet)
    requires
        r1.wf_grant(),
        r2.wf_grant(),
        a.grants(r2),
        forall|t: ComponentTypeId| !(r2.has_read(t) && r1.has_write(t)),
        forall|t: ComponentTypeId| !(r2.has_write(t) && r1.has_read(t)),
    ensures
        forall|t: ComponentTypeId|
            (r2.has_read(t) ==> a.residual_read(r1, t)) && (r2.has_write(t) ==> a.residual_write(
                r1,
                t,
            )),
{
    assert forall|t: ComponentTypeId|
        (r2.has_read(t) ==> a.residual_read(r1, t)) && (r2.has_write(t) ==> a.residual_write(
            r1,
            t,
        )) by {
        assert(r2.has_read(t) ==> a.allows_read(t));
        assert(r2.has_write(t) ==> a.allows_write(t));
        assert(!(r2.has_read(t) && r1.has_write(t)));
        assert(!(r2.has_write(t) && r1.has_read(t)));
    }
}

} // verus!
