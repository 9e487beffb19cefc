//! Views and queries: a statically declared read/write requirement plus an
//! entity-inclusion predicate, validated against a handle's component
//! access before any data is handed out.

use vstd::prelude::*;
use crate::access::ComponentAccess;
use crate::access::Error;
use crate::permissions::ComponentTypeId;
use crate::permissions::PermissionSet;
use crate::permissions::copy_ids;
use crate::permissions::id_vec_contains;
use crate::permissions::lemma_contains_push;
use crate::subworld::SubWorld;
use crate::world::Entity;
use crate::world::EntityLocation;
use crate::world::World;
use crate::world::lemma_rows_injective;
use crate::world::row_has_type;
use crate::world::same_type_set;
use crate::world::types_of;

verus! {

/// A boolean predicate over the presence and absence of component types,
/// composable by conjunction: an entity's archetype passes when it carries
/// every required type and none of the excluded ones.
#[derive(Debug)]
pub struct EntityFilter {
    pub required: Vec<ComponentTypeId>,
    pub excluded: Vec<ComponentTypeId>,
}

impl EntityFilter {
    /// The filter passes this archetype signature.
    pub open spec fn passes(self, sig: Seq<ComponentTypeId>) -> bool {
        &&& forall|t: ComponentTypeId| self.required@.contains(t) ==> sig.contains(t)
        &&& forall|t: ComponentTypeId| self.excluded@.contains(t) ==> !sig.contains(t)
    }

    /// The filter that passes everything.
    pub fn any() -> (f: EntityFilter)
        ensures
            f.required@.len() == 0,
            f.excluded@.len() == 0,
            forall|sig: Seq<ComponentTypeId>| f.passes(sig),
    {
        EntityFilter { required: Vec::new(), excluded: Vec::new() }
    }

    /// The filter that requires the presence of component type `t`.
    pub fn component(t: ComponentTypeId) -> (f: EntityFilter)
        ensures
            f.required@ =~= seq![t],
            f.excluded@.len() == 0,
            forall|sig: Seq<ComponentTypeId>| #[trigger] f.passes(sig) <==> sig.contains(t),
    {
        let mut required: Vec<ComponentTypeId> = Vec::new();
        required.push(t);
        let f = EntityFilter { required, excluded: Vec::new() };
        proof {
            assert forall|sig: Seq<ComponentTypeId>| #[trigger]
                f.passes(sig) <==> sig.contains(t) by {
                assert(f.required@[0] == t);
                assert(f.required@.contains(t));
                if f.passes(sig) {
                    assert(sig.contains(t));
                }
                if sig.contains(t) {
                    assert forall|t2: ComponentTypeId|
                        f.required@.contains(t2) implies sig.contains(t2) by {
                        assert(t2 == t);
                    }
                }
            }
        }
        f
    }

    /// The conjunction of two filters.
    pub fn and(&self, other: &EntityFilter) -> (f: EntityFilter)
        ensures
            forall|sig: Seq<ComponentTypeId>| #[trigger]
                f.passes(sig) <==> self.passes(sig) && other.passes(sig),
    {
        let mut required = copy_ids(&self.required);
        let mut more_required = copy_ids(&other.required);
        required.append(&mut more_required);
        let mut excluded = copy_ids(&self.excluded);
        let mut more_excluded = copy_ids(&other.excluded);
        excluded.append(&mut more_excluded);
        let f = EntityFilter { required, excluded };
        proof {
            assert forall|sig: Seq<ComponentTypeId>| #[trigger]
                f.passes(sig) <==> self.passes(sig) && other.passes(sig) by {
                assert forall|t: ComponentTypeId|
                    f.required@.contains(t) == (self.required@.contains(t)
                        || other.required@.contains(t)) by {
                    lemma_contains_concat(self.required@, other.required@, t);
                }
                assert forall|t: ComponentTypeId|
                    f.excluded@.contains(t) == (self.excluded@.contains(t)
                        || other.excluded@.contains(t)) by {
                    lemma_contains_concat(self.excluded@, other.excluded@, t);
                }
            }
        }
        f
    }
}

/// Membership in a concatenation.
proof fn lemma_contains_concat(a: Seq<ComponentTypeId>, b: Seq<ComponentTypeId>, t: ComponentTypeId)
    ensures
        (a + b).contains(t) == (a.contains(t) || b.contains(t)),
{
    if a.contains(t) {
        let j = choose|j: int| 0 <= j < a.len() && a[j] == t;
        assert((a + b)[j] == t);
    }
    if b.contains(t) {
        let j = choose|j: int| 0 <= j < b.len() && b[j] == t;
        assert((a + b)[a.len() + j] == t);
    }
    if (a + b).contains(t) {
        let j = choose|j: int| 0 <= j < (a + b).len() && (a + b)[j] == t;
        if j < a.len() {
            assert(a[j] == t);
        } else {
            assert(b[j - a.len()] == t);
        }
    }
}

/// A system's statically declared data requirement: the types it reads, the
/// types it writes, and its entity filter.
#[derive(Debug)]
pub struct SystemView {
    pub reads: Vec<ComponentTypeId>,
    pub writes: Vec<ComponentTypeId>,
    pub filter: EntityFilter,
}

impl SystemView {
    /// The access allows everything this view declares: every declared read
    /// type is readable, every declared write type writable.
    pub open spec fn access_valid(self, access: ComponentAccess) -> bool {
        &&& forall|t: ComponentTypeId| self.reads@.contains(t) ==> access.allows_read(t)
        &&& forall|t: ComponentTypeId| self.writes@.contains(t) ==> access.allows_write(t)
    }

    /// The archetype signature carries every type the view touches and
    /// passes the view's filter.
    pub open spec fn matches_sig(self, sig: Seq<ComponentTypeId>) -> bool {
        &&& forall|t: ComponentTypeId| self.reads@.contains(t) ==> sig.contains(t)
        &&& forall|t: ComponentTypeId| self.writes@.contains(t) ==> sig.contains(t)
        &&& self.filter.passes(sig)
    }

    /// Derives the permissions the view requires: read access to every
    /// declared type, write access to the declared write types.
    pub fn requires_permissions(&self) -> (p: PermissionSet)
        ensures
            forall|t: ComponentTypeId|
                p.has_read(t) == (self.reads@.contains(t) || self.writes@.contains(t)),
            forall|t: ComponentTypeId| p.has_write(t) == self.writes@.contains(t),
            p.wf_grant(),
    {
        let mut p = PermissionSet::new();
        let mut i: usize = 0;
        while i < self.reads.len()
            invariant
                i <= self.reads@.len(),
                forall|t: ComponentTypeId|
                    p.has_read(t) == self.reads@.take(i as int).contains(t),
                forall|t: ComponentTypeId| !p.has_write(t),
            decreases self.reads@.len() - i,
        {
            p.push_read(self.reads[i]);
            proof {
                assert forall|t: ComponentTypeId|
                    p.has_read(t) == self.reads@.take(i + 1).contains(t) by {
                    lemma_contains_push(self.reads@.take(i as int), self.reads@[i as int], t);
                    assert(self.reads@.take(i as int).push(self.reads@[i as int])
                        =~= self.reads@.take(i + 1));
                }
            }
            i += 1;
        }
        proof {
            assert(self.reads@.take(self.reads@.len() as int) =~= self.reads@);
        }
        let mut k: usize = 0;
        while k < self.writes.len()
            invariant
                k <= self.writes@.len(),
                forall|t: ComponentTypeId|
                    p.has_read(t) == (self.reads@.contains(t) || self.writes@.take(
                        k as int,
                    ).contains(t)),
                forall|t: ComponentTypeId|
                    p.has_write(t) == self.writes@.take(k as int).contains(t),
            decreases self.writes@.len() - k,
        {
            p.push(self.writes[k]);
            proof {
                assert forall|t: ComponentTypeId|
                    p.has_write(t) == self.writes@.take(k + 1).contains(t) && p.has_read(t) == (
                    self.reads@.contains(t) || self.writes@.take(k + 1).contains(t)) by {
                    lemma_contains_push(self.writes@.take(k as int), self.writes@[k as int], t);
                    assert(self.writes@.take(k as int).push(self.writes@[k as int])
                        =~= self.writes@.take(k + 1));
                }
            }
            k += 1;
        }
        proof {
            assert(self.writes@.take(self.writes@.len() as int) =~= self.writes@);
        }
        p
    }

    /// Decides whether the access covers everything this view declares.
    pub fn validate_access(&self, access: &ComponentAccess) -> (b: bool)
        ensures
            b == self.access_valid(*access),
    {
        let mut i: usize = 0;
        while i < self.reads.len()
            invariant
                i <= self.reads@.len(),
                forall|j: int| 0 <= j < i ==> access.allows_read(#[trigger] self.reads@[j]),
            decreases self.reads@.len() - i,
        {
            if !access.check_read(self.reads[i]) {
                proof {
                    assert(self.reads@.contains(self.reads@[i as int]));
                }
                return false;
            }
            i += 1;
        }
        let mut k: usize = 0;
        while k < self.writes.len()
            invariant
                k <= self.writes@.len(),
                i == self.reads@.len(),
                forall|j: int| 0 <= j < i ==> access.allows_read(#[trigger] self.reads@[j]),
                forall|j: int| 0 <= j < k ==> access.allows_write(#[trigger] self.writes@[j]),
            decreases self.writes@.len() - k,
        {
            if !access.check_write(self.writes[k]) {
                proof {
                    assert(self.writes@.contains(self.writes@[k as int]));
                }
                return false;
            }
            k += 1;
        }
        proof {
            assert forall|t: ComponentTypeId|
                self.reads@.contains(t) implies access.allows_read(t) by {
                let j = choose|j: int| 0 <= j < self.reads@.len() && self.reads@[j] == t;
                assert(access.allows_read(self.reads@[j]));
            }
            assert forall|t: ComponentTypeId|
                self.writes@.contains(t) implies access.allows_write(t) by {
                let j = choose|j: int| 0 <= j < self.writes@.len() && self.writes@[j] == t;
                assert(access.allows_write(self.writes@[j]));
            }
        }
        true
    }

    /// Decides whether the signature carries every declared type and passes
    /// the filter.
    fn matches_signature(&self, sig: &Vec<ComponentTypeId>) -> (b: bool)
        ensures
            b == self.matches_sig(sig@),
    {
        if !all_contained(&self.reads, sig) {
            return false;
        }
        if !all_contained(&self.writes, sig) {
            return false;
        }
        if !all_contained(&self.filter.required, sig) {
            return false;
        }
        let mut k: usize = 0;
        while k < self.filter.excluded.len()
            invariant
                k <= self.filter.excluded@.len(),
                forall|j: int|
                    0 <= j < k ==> !sig@.contains(#[trigger] self.filter.excluded@[j]),
            decreases self.filter.excluded@.len() - k,
        {
            if id_vec_contains(sig, self.filter.excluded[k]) {
                proof {
                    assert(self.filter.excluded@.contains(self.filter.excluded@[k as int]));
                }
                return false;
            }
            k += 1;
        }
        proof {
            assert forall|t: ComponentTypeId|
                self.filter.excluded@.contains(t) implies !sig@.contains(t) by {
                let j = choose|j: int|
                    0 <= j < self.filter.excluded@.len() && self.filter.excluded@[j] == t;
                assert(!sig@.contains(self.filter.excluded@[j]));
            }
        }
        true
    }
}

/// Decides whether every identifier of `a` occurs in `b`.
fn all_contained(a: &Vec<ComponentTypeId>, b: &Vec<ComponentTypeId>) -> (r: bool)
    ensures
        r == forall|t: ComponentTypeId| a@.contains(t) ==> b@.contains(t),
{
    let mut i: usize = 0;
    while i < a.len()
        invariant
            i <= a@.len(),
            forall|j: int| 0 <= j < i ==> b@.contains(#[trigger] a@[j]),
        decreases a@.len() - i,
    {
        if !id_vec_contains(b, a[i]) {
            proof {
                assert(a@.contains(a@[i as int]));
            }
            return false;
        }
        i += 1;
    }
    proof {
        assert forall|t: ComponentTypeId| a@.contains(t) implies b@.contains(t) by {
            let j = choose|j: int| 0 <= j < a@.len() && a@[j] == t;
            assert(b@.contains(a@[j]));
        }
    }
    true
}

/// A view to be evaluated over a world through a handle.
#[derive(Debug)]
pub struct Query {
    pub view: SystemView,
}

impl Query {
    pub fn new(view: SystemView) -> (q: Query)
        ensures
            q.view == view,
    {
        Query { view }
    }

    /// The archetype is inside the handle's scope and its signature matches
    /// the view.
    pub open spec fn arch_matched(world: World, sub: SubWorld, view: SystemView, ai: int) -> bool {
        sub.allows_arch(ai as usize) && view.matches_sig(world.archetypes@[ai].signature@)
    }

    /// The entities the query yields from the first `n` archetypes, in
    /// archetype-then-row order.
    pub open spec fn entities_up_to(world: World, sub: SubWorld, view: SystemView, n: int) -> Seq<
        Entity,
    >
        decreases n,
    {
        if n <= 0 {
            Seq::empty()
        } else {
            Self::entities_up_to(world, sub, view, n - 1) + (if Self::arch_matched(
                world,
                sub,
                view,
                n - 1,
            ) {
                world.archetypes@[n - 1].entities@
            } else {
                Seq::empty()
            })
        }
    }

    /// Everything this query yields over `world` through `sub`.
    pub open spec fn entities_spec(world: World, sub: SubWorld, view: SystemView) -> Seq<Entity> {
        Self::entities_up_to(world, sub, view, world.archetypes@.len() as int)
    }

    /// Runs the query: fails with `AccessDenied` exactly when the handle's
    /// component access denies a declared type; otherwise yields every
    /// matching entity exactly once, in archetype-then-row order.
    pub fn run(&self, world: &World, sub: &SubWorld) -> (r: Result<Vec<Entity>, Error>)
        requires
            world.wf(),
        ensures
            r is Ok <==> self.view.access_valid(sub.components),
            r matches Err(e) ==> e == Error::AccessDenied,
            r matches Ok(v) ==> v@ == Self::entities_spec(*world, *sub, self.view),
    {
        if !self.view.validate_access(&sub.components) {
            return Err(Error::AccessDenied);
        }
        let mut out: Vec<Entity> = Vec::new();
        let mut ai: usize = 0;
        while ai < world.archetypes.len()
            invariant
                ai <= world.archetypes@.len(),
                out@ == Self::entities_up_to(*world, *sub, self.view, ai as int),
            decreases world.archetypes@.len() - ai,
        {
            let included = sub.allows_archetype(ai) && self.view.matches_signature(
                &world.archetypes[ai].signature,
            );
            if included {
                let arch = &world.archetypes[ai];
                let mut r: usize = 0;
                while r < arch.entities.len()
                    invariant
                        r <= arch.entities@.len(),
                        arch == &world.archetypes@[ai as int],
                        ai < world.archetypes@.len(),
                        out@ == Self::entities_up_to(*world, *sub, self.view, ai as int)
                            + arch.entities@.take(r as int),
                    decreases arch.entities@.len() - r,
                {
                    out.push(arch.entities[r]);
                    proof {
                        assert(arch.entities@.take(r as int).push(arch.entities@[r as int])
                            =~= arch.entities@.take(r + 1));
                        assert(out@ =~= Self::entities_up_to(*world, *sub, self.view, ai as int)
                            + arch.entities@.take(r + 1));
                    }
                    r += 1;
                }
                proof {
                    assert(arch.entities@.take(arch.entities@.len() as int) =~= arch.entities@);
                    assert(out@ =~= Self::entities_up_to(*world, *sub, self.view, ai + 1));
                }
            } else {
                proof {
                    assert(out@ =~= Self::entities_up_to(*world, *sub, self.view, ai + 1));
                }
            }
            ai += 1;
        }
        Ok(out)
    }
}

/// The signature carries every type in `needed` and none in `excluded`.
pub open spec fn matches_types(
    sig: Seq<ComponentTypeId>,
    needed: Seq<ComponentTypeId>,
    excluded: Seq<ComponentTypeId>,
) -> bool {
    &&& forall|t: ComponentTypeId| needed.contains(t) ==> sig.contains(t)
    &&& forall|t: ComponentTypeId| excluded.contains(t) ==> !sig.contains(t)
}

/// `arch_matched`, phrased over plain type sets instead of a view value.
pub open spec fn arch_matched_types(
    world: World,
    sub: SubWorld,
    needed: Seq<ComponentTypeId>,
    excluded: Seq<ComponentTypeId>,
    ai: int,
) -> bool {
    sub.allows_arch(ai as usize) && matches_types(
        world.archetypes@[ai].signature@,
        needed,
        excluded,
    )
}

/// The entities a query over these type sets yields from the first `n`
/// archetypes.
pub open spec fn entities_by_types_up_to(
    world: World,
    sub: SubWorld,
    needed: Seq<ComponentTypeId>,
    excluded: Seq<ComponentTypeId>,
    n: int,
) -> Seq<Entity>
    decreases n,
{
    if n <= 0 {
        Seq::empty()
    } else {
        entities_by_types_up_to(world, sub, needed, excluded, n - 1) + (if arch_matched_types(
            world,
            sub,
            needed,
            excluded,
            n - 1,
        ) {
            world.archetypes@[n - 1].entities@
        } else {
            Seq::empty()
        })
    }
}

/// The entities a query over these type sets yields.
pub open spec fn entities_by_types(
    world: World,
    sub: SubWorld,
    needed: Seq<ComponentTypeId>,
    excluded: Seq<ComponentTypeId>,
) -> Seq<Entity> {
    entities_by_types_up_to(world, sub, needed, excluded, world.archetypes@.len() as int)
}

/// A view whose signature test coincides with the type-set test yields
/// exactly the type-set query.
pub proof fn lemma_entities_by_types(
    world: World,
    sub: SubWorld,
    v: SystemView,
    needed: Seq<ComponentTypeId>,
    excluded: Seq<ComponentTypeId>,
    n: int,
)
    requires
        forall|sig: Seq<ComponentTypeId>| #[trigger]
            v.matches_sig(sig) == matches_types(sig, needed, excluded),
    ensures
        Query::entities_up_to(world, sub, v, n) == entities_by_types_up_to(
            world,
            sub,
            needed,
            excluded,
            n,
        ),
    decreases n,
{
    if n > 0 {
        lemma_entities_by_types(world, sub, v, needed, excluded, n - 1);
        assert(v.matches_sig(world.archetypes@[n - 1].signature@) == matches_types(
            world.archetypes@[n - 1].signature@,
            needed,
            excluded,
        ));
    }
}

/// Every entity a type-set query yields is live, lies in an archetype the
/// handle covers, and carries every needed type.
pub proof fn lemma_query_entities_live(
    world: World,
    sub: SubWorld,
    needed: Seq<ComponentTypeId>,
    excluded: Seq<ComponentTypeId>,
    n: int,
)
    requires
        world.wf(),
        n <= world.archetypes@.len(),
    ensures
        forall|k: int|
            0 <= k < entities_by_types_up_to(world, sub, needed, excluded, n).len()
                ==> world.has_entity(
                #[trigger] entities_by_types_up_to(world, sub, needed, excluded, n)[k],
            ),
        forall|k: int|
            0 <= k < entities_by_types_up_to(world, sub, needed, excluded, n).len()
                ==> sub.allows_arch(
                world.loc_of(
                    #[trigger] entities_by_types_up_to(world, sub, needed, excluded, n)[k],
                ).archetype,
            ),
        forall|k: int, j: int|
            0 <= k < entities_by_types_up_to(world, sub, needed, excluded, n).len() && 0 <= j
                < needed.len() ==> world.entity_has(
                #[trigger] entities_by_types_up_to(world, sub, needed, excluded, n)[k],
                #[trigger] needed[j],
            ),
    decreases n,
{
    if n > 0 {
        lemma_query_entities_live(world, sub, needed, excluded, n - 1);
        let prefix = entities_by_types_up_to(world, sub, needed, excluded, n - 1);
        let whole = entities_by_types_up_to(world, sub, needed, excluded, n);
        assert forall|k: int| 0 <= k < whole.len() implies world.has_entity(#[trigger] whole[k])
            && sub.allows_arch(world.loc_of(whole[k]).archetype) && (forall|j: int|
            0 <= j < needed.len() ==> world.entity_has(whole[k], #[trigger] needed[j])) by {
            if k < prefix.len() {
                assert(whole[k] == prefix[k]);
                assert(world.has_entity(prefix[k]));
                assert(sub.allows_arch(world.loc_of(prefix[k]).archetype));
                assert(forall|j: int|
                    0 <= j < needed.len() ==> world.entity_has(prefix[k], #[trigger] needed[j]));
            } else {
                let ai = n - 1;
                let r = k - prefix.len();
                assert(arch_matched_types(world, sub, needed, excluded, ai));
                let e = world.archetypes@[ai].entities@[r];
                assert(whole[k] == e);
                assert(world.entry_ok(ai, r));
                assert(world.arch_ok(ai));
                assert(world.has_entity(e));
                assert(world.loc_of(e) == (EntityLocation {
                    archetype: ai as usize,
                    row: r as usize,
                }));
                assert(world.archetypes.len() == world.archetypes@.len());
                assert(world.archetypes@[ai].entities.len() == world.archetypes@[
                    ai
                ].entities@.len());
                assert forall|j: int| 0 <= j < needed.len() implies world.entity_has(
                    e,
                    #[trigger] needed[j],
                ) by {
                    let t = needed[j];
                    assert(needed.contains(t));
                    assert(world.archetypes@[ai].signature@.contains(t));
                    let row = world.row_of(e);
                    assert(row == world.archetypes@[ai].rows@[r]@);
                    assert(same_type_set(types_of(row), world.archetypes@[ai].signature@));
                    assert(types_of(row).contains(t));
                    let i = choose|i: int|
                        0 <= i < types_of(row).len() && types_of(row)[i] == t;
                    assert(row[i].spec_type_id() == t);
                    assert(row_has_type(row, t));
                }
            }
        }
    }
}

/// A pass yields each matching entity exactly once: the sequence a query
/// draws from a well-formed world holds no entity twice, and every entry
/// records the archetype it came from.
pub proof fn lemma_query_entities_unique(
    world: World,
    sub: SubWorld,
    needed: Seq<ComponentTypeId>,
    excluded: Seq<ComponentTypeId>,
    n: int,
)
    requires
        world.wf(),
        n <= world.archetypes@.len(),
    ensures
        forall|k: int|
            0 <= k < entities_by_types_up_to(world, sub, needed, excluded, n).len()
                ==> world.loc_of(
                #[trigger] entities_by_types_up_to(world, sub, needed, excluded, n)[k],
            ).archetype < n,
        forall|k1: int, k2: int|
            0 <= k1 < k2 < entities_by_types_up_to(world, sub, needed, excluded, n).len()
                ==> entities_by_types_up_to(world, sub, needed, excluded, n)[k1]
                != entities_by_types_up_to(world, sub, needed, excluded, n)[k2],
    decreases n,
{
    if n > 0 {
        lemma_query_entities_unique(world, sub, needed, excluded, n - 1);
        let prefix = entities_by_types_up_to(world, sub, needed, excluded, n - 1);
        let whole = entities_by_types_up_to(world, sub, needed, excluded, n);
        let ai = n - 1;
        assert(world.archetypes.len() == world.archetypes@.len());
        assert(world.archetypes@[ai].entities.len() == world.archetypes@[ai].entities@.len());
        assert forall|k: int| 0 <= k < whole.len() implies world.loc_of(
            #[trigger] whole[k],
        ).archetype < n by {
            if k < prefix.len() {
                assert(whole[k] == prefix[k]);
                assert(world.loc_of(prefix[k]).archetype < n - 1 + 1);
            } else {
                let r = k - prefix.len();
                assert(world.entry_ok(ai, r));
                assert(whole[k] == world.archetypes@[ai].entities@[r]);
            }
        }
        assert forall|k1: int, k2: int| 0 <= k1 < k2 < whole.len() implies whole[k1]
            != whole[k2] by {
            if k2 < prefix.len() {
                assert(prefix[k1] != prefix[k2]);
            } else if k1 >= prefix.len() {
                let r1 = k1 - prefix.len();
                let r2 = k2 - prefix.len();
                if whole[k1] == whole[k2] {
                    lemma_rows_injective(world, ai, r1, ai, r2);
                }
            } else {
                // a prefix entity lives in an earlier archetype than a
                // block entity; one entity has one location
                let r2 = k2 - prefix.len();
                assert(world.entry_ok(ai, r2));
                assert(world.loc_of(prefix[k1]).archetype < ai);
                assert(world.loc_of(world.archetypes@[ai].entities@[r2]).archetype == ai);
            }
        }
    }
}

} // verus!
