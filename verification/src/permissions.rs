//! Set algebra over component-type identifiers, distinguishing read-only
//! from read-write access.

use vstd::prelude::*;

verus! {

/// Identifies a component's type. Two components with the same id are
/// binary-compatible.
pub type ComponentTypeId = u64;

/// Returns whether `v` holds `t`.
pub(crate) fn id_vec_contains(v: &Vec<ComponentTypeId>, t: ComponentTypeId) -> (b: bool)
    ensures
        b == v@.contains(t),
{
    let mut i: usize = 0;
    while i < v.len()
        invariant
            i <= v@.len(),
            forall|j: int| 0 <= j < i ==> v@[j] != t,
        decreases v@.len() - i,
    {
        if v[i] == t {
            return true;
        }
        i += 1;
    }
    false
}

/// Copies a vector of type identifiers.
pub(crate) fn copy_ids(v: &Vec<ComponentTypeId>) -> (r: Vec<ComponentTypeId>)
    ensures
        r@ == v@,
{
    let mut r: Vec<ComponentTypeId> = Vec::new();
    let mut i: usize = 0;
    while i < v.len()
        invariant
            i <= v@.len(),
            r@ == v@.take(i as int),
        decreases v@.len() - i,
    {
        r.push(v[i]);
        assert(v@.take(i as int).push(v@[i as int]) =~= v@.take(i + 1));
        i += 1;
    }
    assert(v@.take(v@.len() as int) =~= v@);
    r
}

/// Membership in a sequence extended by one element.
pub(crate) proof fn lemma_contains_push(s: Seq<ComponentTypeId>, x: ComponentTypeId, y: ComponentTypeId)
    ensures
        s.push(x).contains(y) == (s.contains(y) || y == x),
{
    if s.contains(y) {
        let j = choose|j: int| 0 <= j < s.len() && s[j] == y;
        assert(s.push(x)[j] == y);
    }
    if y == x {
        assert(s.push(x)[s.len() as int] == y);
    }
    if s.push(x).contains(y) && y != x {
        let j = choose|j: int| 0 <= j < s.push(x).len() && s.push(x)[j] == y;
        assert(s[j] == y);
    }
}

/// Two sets with the same contents are well-formed in the same ways.
pub proof fn lemma_same_views_same_wf(a: PermissionSet, b: PermissionSet)
    requires
        a.reads@ == b.reads@,
        a.writes@ == b.writes@,
    ensures
        a.wf_grant() == b.wf_grant(),
        a.wf_deny() == b.wf_deny(),
{
    if a.wf_grant() {
        assert forall|t: ComponentTypeId| b.has_write(t) implies b.has_read(t) by {
            assert(a.has_write(t) ==> a.has_read(t));
        }
    }
    if b.wf_grant() {
        assert forall|t: ComponentTypeId| a.has_write(t) implies a.has_read(t) by {
            assert(b.has_write(t) ==> b.has_read(t));
        }
    }
    if a.wf_deny() {
        assert forall|t: ComponentTypeId| b.has_read(t) implies b.has_write(t) by {
            assert(a.has_read(t) ==> a.has_write(t));
        }
    }
    if b.wf_deny() {
        assert forall|t: ComponentTypeId| a.has_read(t) implies a.has_write(t) by {
            assert(b.has_read(t) ==> b.has_write(t));
        }
    }
}

/// A pair of component-type sets. As the permissions a handle holds, `reads`
/// lists every type it may read and `writes` every type it may write; as the
/// payload of a denial, `reads` lists the types whose reads are forbidden and
/// `writes` the types whose writes are forbidden.
#[derive(Debug)]
pub struct PermissionSet {
    pub reads: Vec<ComponentTypeId>,
    pub writes: Vec<ComponentTypeId>,
}

impl PermissionSet {
    /// The set grants (or, in a denial, forbids) reading `t`.
    pub open spec fn has_read(self, t: ComponentTypeId) -> bool {
        self.reads@.contains(t)
    }

    /// The set grants (or, in a denial, forbids) writing `t`.
    pub open spec fn has_write(self, t: ComponentTypeId) -> bool {
        self.writes@.contains(t)
    }

    /// `t` is granted for shared reading only.
    pub open spec fn has_read_only(self, t: ComponentTypeId) -> bool {
        self.has_read(t) && !self.has_write(t)
    }

    /// Well-formedness of a grant: write access implies read access.
    pub open spec fn wf_grant(self) -> bool {
        forall|t: ComponentTypeId| self.has_write(t) ==> self.has_read(t)
    }

    /// Well-formedness of a denial: a forbidden read implies a forbidden
    /// write, since read access is never weaker than write access.
    pub open spec fn wf_deny(self) -> bool {
        forall|t: ComponentTypeId| self.has_read(t) ==> self.has_write(t)
    }

    /// `other` asks for nothing that `self` does not hold.
    pub open spec fn superset_of(self, other: PermissionSet) -> bool {
        forall|t: ComponentTypeId|
            (other.has_read(t) ==> self.has_read(t)) && (other.has_write(t) ==> self.has_write(t))
    }

    /// No type is readable in both sets, and none writable in both.
    pub open spec fn disjoint_from(self, other: PermissionSet) -> bool {
        forall|t: ComponentTypeId|
            !(self.has_read(t) && other.has_read(t)) && !(self.has_write(t) && other.has_write(t))
    }

    /// The empty permission set.
    pub fn new() -> (r: PermissionSet)
        ensures
            forall|t: ComponentTypeId| !r.has_read(t) && !r.has_write(t),
    {
        PermissionSet { reads: Vec::new(), writes: Vec::new() }
    }

    /// Grants (or forbids) reading `t`, leaving writes unchanged.
    pub fn push_read(&mut self, t: ComponentTypeId)
        ensures
            forall|u: ComponentTypeId|
                final(self).has_read(u) == (old(self).has_read(u) || u == t),
            forall|u: ComponentTypeId| final(self).has_write(u) == old(self).has_write(u),
    {
        if !id_vec_contains(&self.reads, t) {
            self.reads.push(t);
            proof {
                assert forall|u: ComponentTypeId|
                    self.reads@.contains(u) == (old(self).reads@.contains(u) || u == t) by {
                    lemma_contains_push(old(self).reads@, t, u);
                }
            }
        }
    }

    /// Grants (or forbids) writing `t`, leaving reads unchanged.
    pub fn push_write(&mut self, t: ComponentTypeId)
        ensures
            forall|u: ComponentTypeId| final(self).has_read(u) == old(self).has_read(u),
            forall|u: ComponentTypeId|
                final(self).has_write(u) == (old(self).has_write(u) || u == t),
    {
        if !id_vec_contains(&self.writes, t) {
            self.writes.push(t);
            proof {
                assert forall|u: ComponentTypeId|
                    self.writes@.contains(u) == (old(self).writes@.contains(u) || u == t) by {
                    lemma_contains_push(old(self).writes@, t, u);
                }
            }
        }
    }

    /// Grants (or forbids) both reading and writing `t`.
    pub fn push(&mut self, t: ComponentTypeId)
        ensures
            forall|u: ComponentTypeId|
                final(self).has_read(u) == (old(self).has_read(u) || u == t),
            forall|u: ComponentTypeId|
                final(self).has_write(u) == (old(self).has_write(u) || u == t),
    {
        self.push_read(t);
        self.push_write(t);
    }

    /// Copies the set.
    pub fn duplicate(&self) -> (r: PermissionSet)
        ensures
            r.reads@ == self.reads@,
            r.writes@ == self.writes@,
    {
        PermissionSet { reads: copy_ids(&self.reads), writes: copy_ids(&self.writes) }
    }

    /// Decides whether every permission in `other` is already held by `self`.
    pub fn is_superset(&self, other: &PermissionSet) -> (b: bool)
        ensures
            b == self.superset_of(*other),
    {
        let mut i: usize = 0;
        while i < other.reads.len()
            invariant
                i <= other.reads@.len(),
                forall|j: int| 0 <= j < i ==> self.reads@.contains(#[trigger] other.reads@[j]),
            decreases other.reads@.len() - i,
        {
            if !id_vec_contains(&self.reads, other.reads[i]) {
                proof {
                    let t0 = other.reads@[i as int];
                    assert(other.reads@.contains(t0));
                    assert(other.has_read(t0));
                    assert(!self.has_read(t0));
                }
                return false;
            }
            i += 1;
        }
        let mut k: usize = 0;
        while k < other.writes.len()
            invariant
                k <= other.writes@.len(),
                forall|j: int| 0 <= j < i ==> self.reads@.contains(#[trigger] other.reads@[j]),
                i == other.reads@.len(),
                forall|j: int| 0 <= j < k ==> self.writes@.contains(#[trigger] other.writes@[j]),
            decreases other.writes@.len() - k,
        {
            if !id_vec_contains(&self.writes, other.writes[k]) {
                proof {
                    let t0 = other.writes@[k as int];
                    assert(other.writes@.contains(t0));
                    assert(other.has_write(t0));
                    assert(!self.has_write(t0));
                }
                return false;
            }
            k += 1;
        }
        assert forall|t: ComponentTypeId| other.has_read(t) implies self.has_read(t) by {
            let j = choose|j: int| 0 <= j < other.reads@.len() && other.reads@[j] == t;
            assert(self.reads@.contains(other.reads@[j]));
        }
        assert forall|t: ComponentTypeId| other.has_write(t) implies self.has_write(t) by {
            let j = choose|j: int| 0 <= j < other.writes@.len() && other.writes@[j] == t;
            assert(self.writes@.contains(other.writes@[j]));
        }
        true
    }

    /// Decides whether `self` and `other` share no readable and no writable
    /// type.
    pub fn is_disjoint(&self, other: &PermissionSet) -> (b: bool)
        ensures
            b == self.disjoint_from(*other),
    {
        let mut i: usize = 0;
        while i < other.reads.len()
            invariant
                i <= other.reads@.len(),
                forall|j: int| 0 <= j < i ==> !self.reads@.contains(#[trigger] other.reads@[j]),
            decreases other.reads@.len() - i,
        {
            if id_vec_contains(&self.reads, other.reads[i]) {
                proof {
                    let t0 = other.reads@[i as int];
                    assert(other.reads@.contains(t0));
                    assert(other.has_read(t0));
                    assert(self.has_read(t0));
                }
                return false;
            }
            i += 1;
        }
        let mut k: usize = 0;
        while k < other.writes.len()
            invariant
                k <= other.writes@.len(),
                forall|j: int| 0 <= j < i ==> !self.reads@.contains(#[trigger] other.reads@[j]),
                i == other.reads@.len(),
                forall|j: int| 0 <= j < k ==> !self.writes@.contains(#[trigger] other.writes@[j]),
            decreases other.writes@.len() - k,
        {
            if id_vec_contains(&self.writes, other.writes[k]) {
                proof {
                    let t0 = other.writes@[k as int];
                    assert(other.writes@.contains(t0));
                    assert(other.has_write(t0));
                    assert(self.has_write(t0));
                }
                return false;
            }
            k += 1;
        }
        assert forall|t: ComponentTypeId| !(self.has_read(t) && other.has_read(t)) by {
            if other.reads@.contains(t) {
                let j = choose|j: int| 0 <= j < other.reads@.len() && other.reads@[j] == t;
                assert(!self.reads@.contains(other.reads@[j]));
            }
        }
        assert forall|t: ComponentTypeId| !(self.has_write(t) && other.has_write(t)) by {
            if other.writes@.contains(t) {
                let j = choose|j: int| 0 <= j < other.writes@.len() && other.writes@[j] == t;
                assert(!self.writes@.contains(other.writes@[j]));
            }
        }
        true
    }

    /// Removes from `self` what granting `other` elsewhere makes unavailable:
    /// reads of the types `other` writes, and writes of the types `other`
    /// reads. Shared reads survive; anything a new exclusive writer holds is
    /// given up entirely.
    pub fn subtract(&self, other: &PermissionSet) -> (r: PermissionSet)
        ensures
            forall|t: ComponentTypeId|
                r.has_read(t) == (self.has_read(t) && !other.has_write(t)),
            forall|t: ComponentTypeId|
                r.has_write(t) == (self.has_write(t) && !other.has_read(t)),
    {
        let mut reads: Vec<ComponentTypeId> = Vec::new();
        let mut i: usize = 0;
        while i < self.reads.len()
            invariant
                i <= self.reads@.len(),
                forall|m: int|
                    0 <= m < reads@.len()
                        ==> self.reads@.contains(#[trigger] reads@[m]) && !other.writes@.contains(
                        reads@[m],
                    ),
                forall|j: int|
                    0 <= j < i
                        ==> (other.writes@.contains(#[trigger] self.reads@[j]) || reads@.contains(
                        self.reads@[j],
                    )),
            decreases self.reads@.len() - i,
        {
            let ghost prev = reads@;
            if !id_vec_contains(&other.writes, self.reads[i]) {
                reads.push(self.reads[i]);
            }
            proof {
                assert forall|j: int|
                    0 <= j < i + 1 implies (other.writes@.contains(#[trigger] self.reads@[j])
                    || reads@.contains(self.reads@[j])) by {
                    if reads@ != prev {
                        lemma_contains_push(prev, self.reads@[i as int], self.reads@[j]);
                    }
                }
            }
            i += 1;
        }
        let mut writes: Vec<ComponentTypeId> = Vec::new();
        let mut k: usize = 0;
        while k < self.writes.len()
            invariant
                k <= self.writes@.len(),
                forall|m: int|
                    0 <= m < writes@.len()
                        ==> self.writes@.contains(#[trigger] writes@[m]) && !other.reads@.contains(
                        writes@[m],
                    ),
                forall|j: int|
                    0 <= j < k
                        ==> (other.reads@.contains(#[trigger] self.writes@[j]) || writes@.contains(
                        self.writes@[j],
                    )),
            decreases self.writes@.len() - k,
        {
            let ghost prev = writes@;
            if !id_vec_contains(&other.reads, self.writes[k]) {
                writes.push(self.writes[k]);
            }
            proof {
                assert forall|j: int|
                    0 <= j < k + 1 implies (other.reads@.contains(#[trigger] self.writes@[j])
                    || writes@.contains(self.writes@[j])) by {
                    if writes@ != prev {
                        lemma_contains_push(prev, self.writes@[k as int], self.writes@[j]);
                    }
                }
            }
            k += 1;
        }
        let r = PermissionSet { reads, writes };
        assert forall|t: ComponentTypeId|
            r.has_read(t) == (self.has_read(t) && !other.has_write(t)) by {
            if r.reads@.contains(t) {
                let m = choose|m: int| 0 <= m < r.reads@.len() && r.reads@[m] == t;
                assert(self.reads@.contains(r.reads@[m]));
            }
            if self.reads@.contains(t) && !other.writes@.contains(t) {
                let j = choose|j: int| 0 <= j < self.reads@.len() && self.reads@[j] == t;
                assert(r.reads@.contains(self.reads@[j]));
            }
        }
        assert forall|t: ComponentTypeId|
            r.has_write(t) == (self.has_write(t) && !other.has_read(t)) by {
            if r.writes@.contains(t) {
                let m = choose|m: int| 0 <= m < r.writes@.len() && r.writes@[m] == t;
                assert(self.writes@.contains(r.writes@[m]));
            }
            if self.writes@.contains(t) && !other.reads@.contains(t) {
                let j = choose|j: int| 0 <= j < self.writes@.len() && self.writes@[j] == t;
                assert(r.writes@.contains(self.writes@[j]));
            }
        }
        r
    }
}

} // verus!
