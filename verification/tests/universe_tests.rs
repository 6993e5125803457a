//! Tests for the universe container: insertion, lookup, handles, borrow
//! states, garbage collection, and aggregate transactions.

use all_is_cubes::block::{Block, BlockDef};
use all_is_cubes::character::Character;
use all_is_cubes::inv::Inventory;
use all_is_cubes::math::{GridPoint, Rgba};
use all_is_cubes::name::Name;
use all_is_cubes::space::Space;
use all_is_cubes::space_txn::SpaceTransaction;
use all_is_cubes::time::Tick;
use all_is_cubes::universe::{AnyMember, InsertErrorKind, PartialUniverse, Universe};
use all_is_cubes::universe_txn::UniverseTransaction;
use all_is_cubes::uref::RefError;

fn p(x: i32, y: i32, z: i32) -> GridPoint {
    GridPoint::new(x, y, z)
}

fn specific(s: &str) -> Name {
    Name::Specific(String::from(s))
}

fn block(i: u8) -> Block {
    Block::from_color(Rgba::new(i, 40, 50, 255))
}

#[test]
fn insert_and_get_by_type() {
    let mut u = Universe::new();
    let _ = u.insert(specific("b"), BlockDef::new(block(1))).unwrap();
    let got = u.get::<BlockDef>(&specific("b")).expect("member should be found");
    let guard = u.try_read(&got).unwrap();
    assert_eq!(guard.value().block, block(1));
    u.end_read(guard);
    // The same name does not resolve as a different member type.
    assert!(u.get::<Space>(&specific("b")).is_none());
    // An absent name resolves to nothing rather than an error.
    assert!(u.get::<BlockDef>(&specific("nonexistent")).is_none());
}

#[test]
fn name_uniqueness_across_types() {
    let mut u = Universe::new();
    u.insert(specific("x"), BlockDef::new(block(1))).unwrap();
    // The same Specific name is refused even for a different member type.
    let e = u.insert(specific("x"), Space::empty_positive(1, 1, 1)).unwrap_err();
    assert_eq!(e.kind, InsertErrorKind::AlreadyExists);
    // Anonym names may not be chosen by the caller.
    let e = u.insert(Name::Anonym(0), Space::empty_positive(1, 1, 1)).unwrap_err();
    assert_eq!(e.kind, InsertErrorKind::InvalidName);
}

#[test]
fn pending_names_resolve_to_fresh_anonyms() {
    let mut u = Universe::new();
    u.insert(specific("x"), Space::empty_positive(1, 1, 1)).unwrap();
    let _r1 = u.insert(Name::Pending, Space::empty_positive(1, 1, 1)).unwrap();
    let _r2 = u.insert(Name::Pending, Space::empty_positive(1, 1, 1)).unwrap();
    let mut names: Vec<Name> = Vec::new();
    let mut it = u.iter_by_type::<Space>();
    while let Some((name, uref)) = it.next() {
        names.push(name);
        u.drop_ref(uref);
    }
    assert_eq!(names.len(), 3);
    for a in 0..names.len() {
        for b in 0..names.len() {
            if a != b {
                assert_ne!(names[a], names[b]);
            }
        }
    }
}

#[test]
fn shared_reads_allowed_write_excluded() {
    let mut u = Universe::new();
    let r = u.insert(specific("s"), Space::empty_positive(1, 1, 1)).unwrap();
    // Two shared reads at once are fine.
    let g1 = u.try_read(&r).unwrap();
    let g2 = u.try_read(&r).unwrap();
    // A write while reads are outstanding fails.
    assert_eq!(u.try_write(&r).unwrap_err(), RefError::AlreadyBorrowed);
    u.end_read(g1);
    // Still one reader outstanding.
    assert_eq!(u.try_write(&r).unwrap_err(), RefError::AlreadyBorrowed);
    u.end_read(g2);
    // Now a write goes through, and excludes reads.
    let w = u.try_write(&r).unwrap();
    assert_eq!(u.try_read(&r).unwrap_err(), RefError::AlreadyMutablyBorrowed);
    u.end_write(w);
    // And everything is available again.
    let g3 = u.try_read(&r).unwrap();
    u.end_read(g3);
}

#[test]
fn write_guard_edits_are_stored_back() {
    let mut u = Universe::new();
    let r = u.insert(specific("s"), Space::empty_positive(1, 1, 1)).unwrap();
    let b = block(9);
    let mut w = u.try_write(&r).unwrap();
    w.value_mut().set(p(0, 0, 0), &b).unwrap();
    u.end_write(w);
    let g = u.try_read(&r).unwrap();
    assert_eq!(g.value().get(p(0, 0, 0)), Some(b));
    u.end_read(g);
}

#[test]
fn delete_makes_handles_gone() {
    let mut u = Universe::new();
    let r = u.insert(specific("s"), Space::empty_positive(1, 1, 1)).unwrap();
    assert!(u.delete(&specific("s")));
    assert!(!u.delete(&specific("s")), "second delete has nothing to remove");
    assert_eq!(u.try_read(&r).unwrap_err(), RefError::Gone);
    assert_eq!(u.try_write(&r).unwrap_err(), RefError::Gone);
    u.drop_ref(r);
}

#[test]
fn gc_collects_unreferenced_members() {
    let mut u = Universe::new();
    let r = u.insert_anonymous(Space::empty_positive(1, 1, 1));
    // With a live handle, the member survives a collection.
    u.gc();
    assert_eq!(count_members::<Space>(&mut u), 1);
    // Once the last handle is surrendered, a collection removes it and it
    // is no longer found by iteration.
    u.drop_ref(r);
    u.gc();
    assert_eq!(count_members::<Space>(&mut u), 0);
}

#[test]
fn gc_follows_references_between_members() {
    let mut u = Universe::new();
    let space_ref = u.insert_anonymous(Space::empty_positive(1, 1, 1));
    let character_ref = u.insert_anonymous(Character::new(&space_ref, Inventory::new(3)));
    // Drop the external handle to the space; the character still refers to
    // it, so it survives.
    u.drop_ref(space_ref);
    u.gc();
    assert_eq!(count_members::<Space>(&mut u), 1);
    // Drop the character's handle: the character is collected, and with its
    // reference gone, the next sweep collects the space too.
    u.drop_ref(character_ref);
    u.gc();
    assert_eq!(count_members::<Character>(&mut u), 0);
    u.gc();
    assert_eq!(count_members::<Space>(&mut u), 0);
}

fn count_members<T: all_is_cubes::universe::UniverseMember>(u: &mut Universe) -> usize {
    let mut it = u.iter_by_type::<T>();
    let n = it.len();
    while let Some((_, uref)) = it.next() {
        u.drop_ref(uref);
    }
    n
}

#[test]
fn step_runs_deferred_gc() {
    let mut u = Universe::new();
    let r = u.insert_anonymous(Space::empty_positive(1, 1, 1));
    u.drop_ref(r);
    let info = u.step(Tick::running());
    assert!(info.gc_performed, "insertion schedules a collection");
    assert_eq!(count_members::<Space>(&mut u), 0);
    let info = u.step(Tick::running());
    assert!(!info.gc_performed, "no insertion, no collection");
}

#[test]
fn aggregate_transaction_is_atomic() {
    let x = block(1);
    let y = block(2);
    let z = block(3);
    let mut u = Universe::new();
    let a = u.insert(specific("a"), Space::empty_positive(1, 1, 1)).unwrap();
    let b = u.insert(specific("b"), Space::empty_positive(1, 1, 1)).unwrap();

    // The edit of `a` is valid; the edit of `b` requires an old value that
    // is not there.
    let mut txn = UniverseTransaction::default();
    txn.edit_space(u.clone_ref(&a), SpaceTransaction::set_cube(p(0, 0, 0), None, Some(y)))
        .unwrap();
    txn.edit_space(u.clone_ref(&b), SpaceTransaction::set_cube(p(0, 0, 0), Some(x), Some(z)))
        .unwrap();
    txn.execute(&mut u).unwrap_err();

    // Nothing at all was modified, in particular not `a`.
    let g = u.try_read(&a).unwrap();
    assert_eq!(g.value().get(p(0, 0, 0)), Some(Block::Air));
    u.end_read(g);

    // With both edits valid, both are applied.
    let mut txn = UniverseTransaction::default();
    txn.edit_space(u.clone_ref(&a), SpaceTransaction::set_cube(p(0, 0, 0), None, Some(y)))
        .unwrap();
    txn.edit_space(u.clone_ref(&b), SpaceTransaction::set_cube(p(0, 0, 0), None, Some(z)))
        .unwrap();
    txn.execute(&mut u).unwrap();
    let g = u.try_read(&a).unwrap();
    assert_eq!(g.value().get(p(0, 0, 0)), Some(y));
    u.end_read(g);
    let g = u.try_read(&b).unwrap();
    assert_eq!(g.value().get(p(0, 0, 0)), Some(z));
    u.end_read(g);
}

#[test]
fn aggregate_transaction_inserts_and_deletes() {
    let mut u = Universe::new();
    UniverseTransaction::insert(
        specific("d"),
        AnyMember::BlockDef(BlockDef::new(block(5))),
    )
    .execute(&mut u)
    .unwrap();
    assert!(u.get_any(&specific("d")).is_some());

    // Inserting the same name again fails.
    UniverseTransaction::insert(
        specific("d"),
        AnyMember::BlockDef(BlockDef::new(block(6))),
    )
    .execute(&mut u)
    .unwrap_err();

    UniverseTransaction::delete(specific("d")).execute(&mut u).unwrap();
    assert!(u.get_any(&specific("d")).is_none());

    // Deleting an absent member fails the check.
    UniverseTransaction::delete(specific("d")).execute(&mut u).unwrap_err();
}

#[test]
fn aggregate_transaction_merge() {
    let y = block(2);
    let z = block(3);
    let mut u = Universe::new();
    let a = u.insert(specific("a"), Space::empty_positive(1, 1, 1)).unwrap();
    let b = u.insert(specific("b"), Space::empty_positive(1, 1, 1)).unwrap();

    let t1 = SpaceTransaction::set_cube(p(0, 0, 0), None, Some(y)).bind(u.clone_ref(&a));
    let t2 = SpaceTransaction::set_cube(p(0, 0, 0), None, Some(z)).bind(u.clone_ref(&b));
    let merged = t1.merge(t2).unwrap();
    merged.execute(&mut u).unwrap();
    let g = u.try_read(&b).unwrap();
    assert_eq!(g.value().get(p(0, 0, 0)), Some(z));
    u.end_read(g);

    // Two aggregates editing the same member refuse to merge.
    let t3 = SpaceTransaction::set_cube(p(0, 0, 0), None, Some(y)).bind(u.clone_ref(&a));
    let t4 = SpaceTransaction::set_cube(p(0, 0, 0), None, Some(z)).bind(u.clone_ref(&a));
    t3.merge(t4).unwrap_err();
}

#[test]
fn get_default_character_by_convention() {
    let mut u = Universe::new();
    assert!(u.get_default_character().is_none());
    let space_ref = u.insert(specific("ground"), Space::empty_positive(1, 1, 1)).unwrap();
    u.insert(specific("character"), Character::new(&space_ref, Inventory::new(3))).unwrap();
    assert!(u.get_default_character().is_some());
}

#[test]
fn partial_universe_collects_all_members() {
    let mut u = Universe::new();
    u.insert(specific("b"), BlockDef::new(block(1))).unwrap();
    u.insert(specific("s1"), Space::empty_positive(1, 1, 1)).unwrap();
    u.insert(specific("s2"), Space::empty_positive(1, 1, 1)).unwrap();
    let p = PartialUniverse::all_of(&mut u);
    assert_eq!(p.count(), 3);
    let q = PartialUniverse::from_set(vec![u.get::<Space>(&specific("s1")).unwrap()]);
    assert_eq!(q.count(), 1);
}

#[test]
fn universe_ids_distinguish_universes() {
    let u1 = Universe::new();
    let u2 = Universe::new();
    assert_ne!(u1.universe_id(), u2.universe_id());
    assert_eq!(u1.universe_id(), u1.universe_id());
}

#[test]
fn handles_from_another_universe_are_gone() {
    let mut u1 = Universe::new();
    let mut u2 = Universe::new();
    let r1 = u1.insert(specific("s"), Space::empty_positive(1, 1, 1)).unwrap();
    assert_eq!(u2.try_read(&r1).unwrap_err(), RefError::Gone);
    u1.drop_ref(r1);
}
