//! World, storage, builder and join behaviour on concrete values.

use ecs_core::entity::Entity;
use ecs_core::world::{EntityBuilder, World};

#[test]
fn storage_insert_get_remove() {
    let mut w: World<i64> = World::new();
    let c = w.register();
    let e = w.create_entity();
    assert_eq!(w.get(c, e), None);
    w.insert_component(c, e, 41);
    assert_eq!(w.get(c, e), Some(41));
    w.insert_component(c, e, 42);
    assert_eq!(w.get(c, e), Some(42));
    w.remove_component(c, e);
    assert_eq!(w.get(c, e), None);
}

#[test]
fn register_assigns_distinct_ids() {
    let mut w: World<i64> = World::new();
    let a = w.register();
    let b = w.register();
    let c = w.register();
    assert_ne!(a, b);
    assert_ne!(b, c);
    assert_ne!(a, c);
    assert_eq!(w.component_count(), 3);
}

#[test]
fn entities_are_fresh_and_distinct() {
    let mut w: World<i64> = World::new();
    let c = w.register();
    let e1 = w.create_entity();
    let e2 = w.create_entity();
    assert_ne!(e1, e2);
    assert_eq!(w.get(c, e1), None);
    assert_eq!(w.get(c, e2), None);
}

#[test]
fn join_is_exact_intersection() {
    let mut w: World<i64> = World::new();
    let a = w.register();
    let b = w.register();
    let both = w.create_entity();
    let only_a = w.create_entity();
    let only_b = w.create_entity();
    let neither = w.create_entity();
    w.insert_component(a, both, 1);
    w.insert_component(b, both, 2);
    w.insert_component(a, only_a, 3);
    w.insert_component(b, only_b, 4);

    let recs = ecs_core::visual::project(&w, &vec![a, b]);
    assert_eq!(recs.len(), 1);
    assert_eq!(recs[0].entity, both);
    assert_eq!(recs[0].values, vec![1, 2]);
    let found: Vec<Entity> = recs.iter().map(|r| r.entity).collect();
    assert!(!found.contains(&only_a));
    assert!(!found.contains(&only_b));
    assert!(!found.contains(&neither));
}

#[test]
fn join_has_no_duplicates() {
    let mut w: World<i64> = World::new();
    let a = w.register();
    let b = w.register();
    for i in 0..5i64 {
        let e = w.create_entity();
        w.insert_component(a, e, i);
        w.insert_component(b, e, 10 * i);
    }
    let recs = ecs_core::visual::project(&w, &vec![a, b]);
    assert_eq!(recs.len(), 5);
    for i in 0..recs.len() {
        for j in (i + 1)..recs.len() {
            assert_ne!(recs[i].entity, recs[j].entity);
        }
    }
}

#[test]
fn builder_attaches_all_components_atomically() {
    let mut w: World<i64> = World::new();
    let a = w.register();
    let b = w.register();
    let c = w.register();
    let e = w.build_entity(EntityBuilder::new().with(a, 7).with(b, 8));
    assert_eq!(w.get(a, e), Some(7));
    assert_eq!(w.get(b, e), Some(8));
    assert_eq!(w.get(c, e), None);
    // the built entity joins immediately over everything it was given
    let recs = ecs_core::visual::project(&w, &vec![a, b]);
    assert_eq!(recs.len(), 1);
    assert_eq!(recs[0].entity, e);
}

#[test]
fn destroy_removes_from_every_storage_and_join() {
    let mut w: World<i64> = World::new();
    let a = w.register();
    let b = w.register();
    let e = w.build_entity(EntityBuilder::new().with(a, 1).with(b, 2));
    let keep = w.build_entity(EntityBuilder::new().with(a, 3).with(b, 4));
    w.destroy_entity(e);
    assert_eq!(w.get(a, e), None);
    assert_eq!(w.get(b, e), None);
    assert_eq!(w.get(a, keep), Some(3));
    let recs = ecs_core::visual::project(&w, &vec![a, b]);
    assert_eq!(recs.len(), 1);
    assert_eq!(recs[0].entity, keep);
    let recs_a = ecs_core::visual::project(&w, &vec![a]);
    assert_eq!(recs_a.len(), 1);
    assert_eq!(recs_a[0].entity, keep);
}

#[test]
fn resource_pool_assigns_stable_indices() {
    let mut pool = ecs_core::pool::ResourcePool::new();
    let crab = pool.add(String::from("assets/crab1.png"));
    let duck = pool.add(String::from("assets/duck1.png"));
    assert_eq!(crab, 0);
    assert_eq!(duck, 1);
    assert_eq!(pool.len(), 2);
    // a key never gets a second index
    assert_eq!(pool.add(String::from("assets/crab1.png")), 0);
    assert_eq!(pool.len(), 2);
    assert_eq!(pool.lookup(&String::from("assets/duck1.png")), Some(1));
    assert_eq!(pool.lookup(&String::from("assets/frog1.png")), None);
}

#[test]
fn storage_items_iterate_every_pair_once() {
    let mut st: ecs_core::storage::Storage<i64> = ecs_core::storage::Storage::new();
    let e1 = Entity { id: 0 };
    let e2 = Entity { id: 1 };
    st.insert(e1, 10);
    st.insert(e2, 20);
    st.insert(e1, 11);
    let items = st.items();
    assert_eq!(items.len(), 2);
    assert!(items.contains(&(e1, 11)));
    assert!(items.contains(&(e2, 20)));
}

#[test]
fn join_over_empty_storages_is_empty() {
    let mut w: World<i64> = World::new();
    let a = w.register();
    let b = w.register();
    let _lonely = w.create_entity();
    let recs = ecs_core::visual::project(&w, &vec![a, b]);
    assert!(recs.is_empty());
}
