use eks::Entity;
use eks::Mut;
use eks::Ref;
use eks::World;
use eks::example_component::Comp;
use eks::example_component::Position;
use eks::example_component::Special;
use eks::example_component::Speed;
use eks::map1;
use eks::map1_in;
use eks::map2;
use eks::map2_in;
use eks::map_mut1;
use eks::map_mut2;
use eks::map_mut_checked2;
use eks::map_mut_checked3;
use eks::map_mut3;
use eks::map3;
use eks::tags1;
use eks::tags1_in;
use eks::tags2;
use eks::tags2_in;
use eks::tags3;

#[test]
fn works() {
    let mut world: World<Comp> = World::new();

    world.insert(Entity::new().with::<Position>(5));
    world.insert(Entity::new().with::<Position>(-1).with::<Speed>(3));

    for entity in world.iter_mut() {
        match map_mut_checked2::<Comp, Position, Speed>(entity) {
            Ok(Some((position, speed))) => *position += *speed,
            Ok(None) => {}
            Err(_) => panic!(),
        }
    }

    let pairs = map2_in::<Comp, Position, Speed>(&world);
    assert_eq!(Some(&(&2, &3)), pairs.first());
    assert_eq!(1, tags1_in::<Comp, Speed>(&world).len());
}

#[test]
fn predicate_and_map_agree() {
    let with_both: Entity<Comp> = Entity::new().with::<Position>(1).with::<Speed>(2);
    let with_one: Entity<Comp> = Entity::new().with::<Position>(1);
    let with_none: Entity<Comp> = Entity::new();

    assert!(tags2::<Comp, Position, Speed>(&with_both));
    assert!(!tags2::<Comp, Position, Speed>(&with_one));
    assert!(tags1::<Comp, Position>(&with_one));
    assert!(!tags1::<Comp, Position>(&with_none));

    assert_eq!(Some((&1, &2)), map2::<Comp, Position, Speed>(&with_both));
    assert_eq!(None, map2::<Comp, Position, Speed>(&with_one));
    assert_eq!(Some(&1), map1::<Comp, Position>(&with_one));
    assert_eq!(None, map1::<Comp, Speed>(&with_one));
}

#[test]
fn immutable_map_filters_in_order() {
    let mut w: World<Comp> = World::new();
    w.insert(Entity::new().with::<Position>(1));
    w.insert(Entity::new().with::<Position>(2).with::<Speed>(20));
    w.insert(Entity::new().with::<Speed>(30));
    w.insert(Entity::new().with::<Position>(4).with::<Speed>(40));

    let pairs = map2_in::<Comp, Position, Speed>(&w);
    assert_eq!(2, pairs.len());
    assert_eq!((&2, &20), pairs[0]);
    assert_eq!((&4, &40), pairs[1]);

    let matched = tags2_in::<Comp, Position, Speed>(&w);
    assert_eq!(2, matched.len());
    assert_eq!(Some(&2), matched[0].get::<Position>());
    assert_eq!(Some(&4), matched[1].get::<Position>());

    let positions = map1_in::<Comp, Position>(&w);
    assert_eq!(vec![&1, &2, &4], positions);

    assert!(map2_in::<Comp, Position, Speed>(&World::new()).is_empty());
}

#[test]
fn mutable_map_writes_are_visible() {
    let mut e: Entity<Comp> = Entity::new().with::<Position>(0).with::<Speed>(9);
    match map_mut1::<Comp, Position>(&mut e) {
        Some(p) => *p = 7,
        None => panic!(),
    }
    assert_eq!(Some(&7), e.get::<Position>());

    match map_mut2::<Comp, Position, Speed>(&mut e) {
        Some((p, s)) => {
            *p = 70;
            *s = 80;
        }
        None => panic!(),
    }
    assert_eq!(Some(&70), e.get::<Position>());
    assert_eq!(Some(&80), e.get::<Speed>());

    let mut partial: Entity<Comp> = Entity::new().with::<Position>(1);
    assert!(map_mut2::<Comp, Position, Speed>(&mut partial).is_none());
    assert_eq!(Some(&1), partial.get::<Position>());
}

#[test]
fn checked_map_rejects_duplicate_kind() {
    let mut e: Entity<Comp> = Entity::new().with::<Position>(3);
    match map_mut_checked2::<Comp, Position, Position>(&mut e) {
        Err(dup) => {
            assert_eq!("Position", dup.name);
        }
        Ok(_) => panic!(),
    }
    assert_eq!(Some(&3), e.get::<Position>());

    let mut e2: Entity<Comp> = Entity::new().with::<Position>(1).with::<Speed>(2);
    match map_mut_checked2::<Comp, Position, Speed>(&mut e2) {
        Ok(Some((p, s))) => {
            *p = 10;
            *s = 20;
        }
        _ => panic!(),
    }
    assert_eq!(Some(&10), e2.get::<Position>());
    assert_eq!(Some(&20), e2.get::<Speed>());
}

#[test]
fn index_wrappers_reach_components() {
    let mut e: Entity<Comp> = Entity::new().with::<Position>(6).with::<Speed>(7);
    assert_eq!(Some(&6), Ref(Position {}).try_entity(&e));
    assert_eq!(Some(&7), Mut(Speed {}).try_entity(&e));
    match Mut(Speed {}).try_entity_mut(&mut e) {
        Some(s) => *s = 8,
        None => panic!(),
    }
    assert_eq!(Some(&8), e.get::<Speed>());
    let bare: Entity<Comp> = Entity::new();
    assert_eq!(None, Ref(Position {}).try_entity(&bare));
}

#[test]
fn simulation_step_scenario() {
    let mut w: World<Comp> = World::new();
    let a = w.insert(Entity::new().with::<Position>(0).with::<Speed>(-1));
    let b = w.insert(Entity::new().with::<Position>(2).with::<Speed>(3));

    for entity in w.iter_mut() {
        if let Some((position, speed)) = map_mut2::<Comp, Position, Speed>(entity) {
            *position += *speed;
        }
    }

    assert_eq!(Some(&-1), w.get(a).unwrap().get::<Position>());
    assert_eq!(Some(&5), w.get(b).unwrap().get::<Position>());

    let positions = map1_in::<Comp, Position>(&w);
    assert_eq!(vec![&-1, &5], positions);
}

#[test]
fn marker_kind_filters() {
    let mut w: World<Comp> = World::new();
    w.insert(Entity::new().with::<Position>(1).with::<Special>(()));
    w.insert(Entity::new().with::<Position>(2));
    let special = tags1_in::<Comp, Special>(&w);
    assert_eq!(1, special.len());
    assert_eq!(Some(&1), special[0].get::<Position>());
}

#[test]
fn declaration_keys_are_checked() {
    assert!(eks::keys_valid(&vec![1, 2, 3]));
    assert!(!eks::keys_valid(&vec![]));
    assert!(!eks::keys_valid(&vec![1, 2, 1]));
}

#[test]
fn three_kind_mutable_map() {
    let mut e: Entity<Comp> = Entity::new()
        .with::<Position>(1)
        .with::<Speed>(2)
        .with::<Special>(());
    match map_mut3::<Comp, Position, Speed, Special>(&mut e) {
        Some((p, s, _marker)) => {
            *p = 10;
            *s = 20;
        }
        None => panic!(),
    }
    assert_eq!(Some(&10), e.get::<Position>());
    assert_eq!(Some(&20), e.get::<Speed>());

    match map_mut3::<Comp, Special, Position, Speed>(&mut e) {
        Some((_marker, p, s)) => {
            *p = 100;
            *s = 200;
        }
        None => panic!(),
    }
    assert_eq!(Some(&100), e.get::<Position>());
    assert_eq!(Some(&200), e.get::<Speed>());

    let mut partial: Entity<Comp> = Entity::new().with::<Position>(1).with::<Speed>(2);
    assert!(map_mut3::<Comp, Position, Speed, Special>(&mut partial).is_none());
    assert!(tags3::<Comp, Position, Speed, Special>(&e));
    assert!(!tags3::<Comp, Position, Speed, Special>(&partial));
    assert_eq!(
        Some((&100, &200, &())),
        map3::<Comp, Position, Speed, Special>(&e)
    );
}

#[test]
fn checked_three_kind_map_rejects_duplicates() {
    let mut e: Entity<Comp> = Entity::new()
        .with::<Position>(1)
        .with::<Speed>(2)
        .with::<Special>(());
    match map_mut_checked3::<Comp, Position, Speed, Position>(&mut e) {
        Err(dup) => assert_eq!("Position", dup.name),
        Ok(_) => panic!(),
    }
    match map_mut_checked3::<Comp, Position, Speed, Special>(&mut e) {
        Ok(Some(_)) => {}
        _ => panic!(),
    }
}
