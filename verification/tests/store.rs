use eks::Entity;
use eks::World;
use eks::example_component::Comp;
use eks::example_component::Position;
use eks::example_component::Special;
use eks::example_component::Speed;

#[test]
fn new_entity_is_empty_and_unattached() {
    let e: Entity<Comp> = Entity::new();
    assert_eq!(None, e.id());
    assert!(!e.has::<Position>());
    assert!(!e.has::<Speed>());
    assert!(!e.has::<Special>());
}

#[test]
fn has_matches_get() {
    let e: Entity<Comp> = Entity::new().with::<Position>(7);
    assert_eq!(e.get::<Position>().is_some(), e.has::<Position>());
    assert_eq!(e.get::<Speed>().is_some(), e.has::<Speed>());
    assert!(e.has::<Position>());
    assert!(!e.has::<Speed>());
}

#[test]
fn add_replaces() {
    let mut e: Entity<Comp> = Entity::new();
    assert_eq!(None, e.add::<Position>(1));
    let prior = e.add::<Position>(2);
    assert_eq!(Some(1), prior);
    assert_eq!(Some(&2), e.get::<Position>());
}

#[test]
fn add_keeps_other_kinds() {
    let mut e: Entity<Comp> = Entity::new().with::<Speed>(9);
    e.add::<Position>(4);
    assert_eq!(Some(&9), e.get::<Speed>());
    assert_eq!(Some(&4), e.get::<Position>());
}

#[test]
fn remove_detaches_and_returns_value() {
    let mut e: Entity<Comp> = Entity::new().with::<Position>(11).with::<Speed>(22);
    assert_eq!(Some(11), e.remove::<Position>());
    assert!(!e.has::<Position>());
    assert_eq!(Some(&22), e.get::<Speed>());
    assert_eq!(None, e.remove::<Position>());
}

#[test]
fn get_mut_writes_are_visible() {
    let mut e: Entity<Comp> = Entity::new().with::<Position>(0);
    match e.get_mut::<Position>() {
        Some(p) => *p = 42,
        None => panic!(),
    }
    assert_eq!(Some(&42), e.get::<Position>());
    assert!(e.get_mut::<Speed>().is_none());
}

#[test]
fn two_kind_mutation_is_visible() {
    let mut e: Entity<Comp> = Entity::new().with::<Position>(0).with::<Speed>(9);
    match e.get2_mut::<Position, Speed>() {
        Some((p, s)) => {
            *p = 1;
            *s = 2;
        }
        None => panic!(),
    }
    assert_eq!(Some(&1), e.get::<Position>());
    assert_eq!(Some(&2), e.get::<Speed>());
}

#[test]
fn direct_index_reads_and_writes() {
    let mut e: Entity<Comp> = Entity::new().with::<Position>(5);
    assert_eq!(&5, e.index::<Position>());
    *e.index_mut::<Position>() = 6;
    assert_eq!(&6, e.index::<Position>());
}

#[test]
fn identities_ascend_and_are_never_reused() {
    let mut w: World<Comp> = World::new();
    let a = w.insert(Entity::new());
    let b = w.insert(Entity::new());
    assert!(a < b);
    assert!(w.remove(a).is_some());
    let c = w.insert(Entity::new());
    assert!(b < c);
    assert!(a < c);
    assert_ne!(a, c);
}

#[test]
fn world_get_and_remove() {
    let mut w: World<Comp> = World::new();
    let a = w.insert(Entity::new().with::<Position>(1));
    let b = w.insert(Entity::new().with::<Position>(2));
    assert_eq!(Some(&1), w.get(a).unwrap().get::<Position>());
    assert_eq!(Some(&2), w.get(b).unwrap().get::<Position>());
    let removed = w.remove(a).unwrap();
    assert_eq!(None, removed.id());
    assert_eq!(Some(&1), removed.get::<Position>());
    assert!(w.get(a).is_none());
    assert!(w.remove(a).is_none());
    assert_eq!(1, w.len());
}

#[test]
fn world_index_reads_and_writes() {
    let mut w: World<Comp> = World::new();
    let a = w.insert(Entity::new().with::<Position>(7));
    assert_eq!(Some(&7), w.index(a).get::<Position>());
    w.index_mut(a).add::<Position>(8);
    assert_eq!(Some(&8), w.index(a).get::<Position>());
}

#[test]
fn world_get_mut_is_visible() {
    let mut w: World<Comp> = World::new();
    let a = w.insert(Entity::new().with::<Position>(0));
    match w.get_mut(a) {
        Some(e) => {
            e.add::<Position>(3);
        }
        None => panic!(),
    }
    assert_eq!(Some(&3), w.get(a).unwrap().get::<Position>());
    assert!(w.get_mut(a).is_some());
}

#[test]
fn iteration_is_identity_ascending() {
    let mut w: World<Comp> = World::new();
    w.insert(Entity::new().with::<Position>(10));
    w.insert(Entity::new().with::<Position>(20));
    w.insert(Entity::new().with::<Position>(30));
    let seen: Vec<isize> = w
        .iter()
        .into_iter()
        .map(|e| *e.get::<Position>().unwrap())
        .collect();
    assert_eq!(vec![10, 20, 30], seen);
}

#[test]
fn iter_mut_reaches_every_entity() {
    let mut w: World<Comp> = World::new();
    w.insert(Entity::new().with::<Position>(1));
    w.insert(Entity::new().with::<Position>(2));
    for e in w.iter_mut() {
        match e.get_mut::<Position>() {
            Some(p) => *p *= 10,
            None => panic!(),
        }
    }
    let seen: Vec<isize> = w
        .iter()
        .into_iter()
        .map(|e| *e.get::<Position>().unwrap())
        .collect();
    assert_eq!(vec![10, 20], seen);
}

#[test]
fn remove_middle_keeps_order() {
    let mut w: World<Comp> = World::new();
    let a = w.insert(Entity::new().with::<Special>(()));
    let b = w.insert(Entity::new().with::<Special>(()));
    let c = w.insert(Entity::new().with::<Special>(()));
    let removed = w.remove(b).unwrap();
    assert_eq!(None, removed.id());
    assert!(removed.has::<Special>());
    assert_eq!(vec![a, c], w.ids());
}
