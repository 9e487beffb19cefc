use dungeon_ecs::access::ComponentAccess;
use dungeon_ecs::access::Error;
use dungeon_ecs::components::HEALTH_TYPE;
use dungeon_ecs::components::NAME_TYPE;
use dungeon_ecs::components::POSITION_TYPE;
use dungeon_ecs::permissions::PermissionSet;
use dungeon_ecs::subworld::ArchetypeAccess;

fn request(read_only: &[u64], writes: &[u64]) -> PermissionSet {
    let mut p = PermissionSet::new();
    for &t in read_only {
        p.push_read(t);
    }
    for &t in writes {
        p.push(t);
    }
    p
}

#[test]
fn split_all_write_position() {
    // A world handle with unrestricted access, asked for exclusive write
    // access to positions alone.
    let all = ComponentAccess::All;
    let (left, right) = all.split(request(&[], &[POSITION_TYPE])).unwrap();

    // the grant covers exactly the requested type, readable and writable
    assert!(left.check_read(POSITION_TYPE));
    assert!(left.check_write(POSITION_TYPE));
    // and nothing else
    assert!(!left.check_read(HEALTH_TYPE));
    assert!(!left.check_write(HEALTH_TYPE));

    // the remainder loses the written type entirely
    assert!(!right.check_read(POSITION_TYPE));
    assert!(!right.check_write(POSITION_TYPE));
    // and keeps everything unmentioned
    assert!(right.check_read(HEALTH_TYPE));
    assert!(right.check_write(HEALTH_TYPE));
}

#[test]
fn split_all_mixed_request() {
    // reads and writes together: write positions, read health
    let all = ComponentAccess::All;
    let (left, right) = all.split(request(&[HEALTH_TYPE], &[POSITION_TYPE])).unwrap();

    assert!(left.check_read(POSITION_TYPE) && left.check_write(POSITION_TYPE));
    assert!(left.check_read(HEALTH_TYPE) && !left.check_write(HEALTH_TYPE));
    assert!(!left.check_read(NAME_TYPE) && !left.check_write(NAME_TYPE));

    // exclusivity: the written type is gone from the remainder
    assert!(!right.check_read(POSITION_TYPE) && !right.check_write(POSITION_TYPE));
    // shared read: the read-only type stays readable but loses its writes
    assert!(right.check_read(HEALTH_TYPE) && !right.check_write(HEALTH_TYPE));
    // conservation: the unmentioned type keeps the original (full) access
    assert!(right.check_read(NAME_TYPE) && right.check_write(NAME_TYPE));
}

#[test]
fn split_allow_narrows() {
    // a handle already narrowed to {read+write position, read health}
    let held = ComponentAccess::Allow(request(&[HEALTH_TYPE], &[POSITION_TYPE]));
    let (left, right) = held.split(request(&[], &[POSITION_TYPE])).unwrap();

    assert!(left.check_read(POSITION_TYPE) && left.check_write(POSITION_TYPE));
    assert!(!left.check_read(HEALTH_TYPE));

    // the remainder keeps only the shared health read
    assert!(!right.check_read(POSITION_TYPE) && !right.check_write(POSITION_TYPE));
    assert!(right.check_read(HEALTH_TYPE) && !right.check_write(HEALTH_TYPE));
    assert!(!right.check_read(NAME_TYPE));
}

#[test]
fn split_allow_exceeding_fails() {
    // cannot carve write access out of a read-only grant
    let held = ComponentAccess::Allow(request(&[POSITION_TYPE], &[]));
    let r = held.split(request(&[], &[POSITION_TYPE]));
    assert_eq!(r.unwrap_err(), Error::PermissionExceeded);
}

#[test]
fn split_allow_unknown_type_fails() {
    // cannot request a type the handle does not hold at all
    let held = ComponentAccess::Allow(request(&[POSITION_TYPE], &[]));
    let r = held.split(request(&[HEALTH_TYPE], &[]));
    assert_eq!(r.unwrap_err(), Error::PermissionExceeded);
}

#[test]
fn split_disallow_intersecting_fails() {
    // a denial blocks requests that touch it
    let denied = ComponentAccess::Disallow(request(&[], &[POSITION_TYPE]));
    let r = denied.split(request(&[POSITION_TYPE], &[]));
    assert_eq!(r.unwrap_err(), Error::PermissionExceeded);
}

#[test]
fn split_disallow_disjoint_succeeds() {
    let denied = ComponentAccess::Disallow(request(&[], &[POSITION_TYPE]));
    let (left, right) = denied.split(request(&[], &[HEALTH_TYPE])).unwrap();
    assert!(left.check_write(HEALTH_TYPE));
    assert!(!right.check_read(HEALTH_TYPE) && !right.check_write(HEALTH_TYPE));
    assert!(!right.check_read(POSITION_TYPE) && !right.check_write(POSITION_TYPE));
    assert!(right.check_read(NAME_TYPE) && right.check_write(NAME_TYPE));
}

#[test]
fn split_twice_disjoint_writes() {
    // two exclusive writers of disjoint types carved from the same handle
    let all = ComponentAccess::All;
    let (l1, rm1) = all.split(request(&[], &[POSITION_TYPE])).unwrap();
    let (l2, rm2) = rm1.split(request(&[], &[HEALTH_TYPE])).unwrap();

    assert!(l1.check_write(POSITION_TYPE));
    assert!(l2.check_write(HEALTH_TYPE));
    // neither grant can touch the other's type
    assert!(!l1.check_read(HEALTH_TYPE) && !l1.check_write(HEALTH_TYPE));
    assert!(!l2.check_read(POSITION_TYPE) && !l2.check_write(POSITION_TYPE));
    // the final remainder has lost both
    assert!(!rm2.check_read(POSITION_TYPE) && !rm2.check_write(POSITION_TYPE));
    assert!(!rm2.check_read(HEALTH_TYPE) && !rm2.check_write(HEALTH_TYPE));

    // a third request to read positions against the remainder of the first
    // split fails: the position writer holds them exclusively
    let r = rm1.split(request(&[POSITION_TYPE], &[]));
    assert_eq!(r.unwrap_err(), Error::PermissionExceeded);
}

#[test]
fn split_remainder_allows_second_reader() {
    // a shared read leaves the remainder readable, so a second reader of
    // the same type still succeeds
    let all = ComponentAccess::All;
    let (_, rm1) = all.split(request(&[POSITION_TYPE], &[])).unwrap();
    let (l2, rm2) = rm1.split(request(&[POSITION_TYPE], &[])).unwrap();
    assert!(l2.check_read(POSITION_TYPE) && !l2.check_write(POSITION_TYPE));
    assert!(rm2.check_read(POSITION_TYPE) && !rm2.check_write(POSITION_TYPE));
}

#[test]
fn archetype_access_disjointness() {
    let a = ArchetypeAccess::Only(vec![0, 2]);
    let b = ArchetypeAccess::Only(vec![1, 3]);
    let c = ArchetypeAccess::Only(vec![2, 4]);
    assert!(a.is_disjoint(&b));
    assert!(!a.is_disjoint(&c));
    // an unrestricted access is never disjoint from anything
    assert!(!ArchetypeAccess::All.is_disjoint(&b));
    assert!(!b.is_disjoint(&ArchetypeAccess::All));
    assert!(!ArchetypeAccess::All.is_disjoint(&ArchetypeAccess::All));
}

#[test]
fn permission_set_operations() {
    let big = request(&[NAME_TYPE], &[POSITION_TYPE, HEALTH_TYPE]);
    let small = request(&[], &[POSITION_TYPE]);
    assert!(big.is_superset(&small));
    assert!(!small.is_superset(&big));
    let other = request(&[], &[NAME_TYPE]);
    assert!(!big.is_disjoint(&other));
    let far = request(&[42], &[]);
    assert!(big.is_disjoint(&far));
}
