use thecs::{Scene, StoreError, TypeInfo};

fn position() -> TypeInfo {
    TypeInfo::new(1, 8, 4, false)
}

fn velocity() -> TypeInfo {
    TypeInfo::new(2, 4, 4, false)
}

fn health() -> TypeInfo {
    TypeInfo::new(3, 4, 4, false)
}

fn name() -> TypeInfo {
    TypeInfo::new(4, 24, 8, true)
}

fn le(values: &[i32]) -> Vec<u8> {
    let mut bytes = Vec::new();
    for v in values {
        bytes.extend_from_slice(&v.to_le_bytes());
    }
    bytes
}

fn moving(x: i32, y: i32, dx: i32) -> Vec<(TypeInfo, Vec<u8>)> {
    vec![(position(), le(&[x, y])), (velocity(), le(&[dx]))]
}

#[test]
fn new_scene_is_empty() {
    let scene = Scene::new();
    assert_eq!(scene.created(), 0);
    assert_eq!(scene.len(), 0);
    assert_eq!(scene.archetype_count(), 0);
    assert_eq!(scene.get_resource(1), None);
    let same = Scene::default();
    assert_eq!(same.created(), 0);
    assert_eq!(same.archetype_count(), 0);
}

#[test]
fn created_actor_has_its_components_and_no_other() {
    let mut scene = Scene::new();
    let actor = scene.create_actor(moving(1, 2, 3)).unwrap();
    assert_eq!(scene.get_component(actor, position()), Some(&le(&[1, 2])[..]));
    assert_eq!(scene.get_component(actor, velocity()), Some(&le(&[3])[..]));
    assert_eq!(scene.get_component(actor, health()), None);
    assert_eq!(scene.component(actor, position()), &le(&[1, 2])[..]);
    assert!(scene.contains(actor));
    assert_eq!(scene.len(), 1);
}

#[test]
fn actors_are_numbered_from_one_and_never_twice() {
    let mut scene = Scene::new();
    let a = scene.create_actor(moving(0, 0, 0)).unwrap();
    let b = scene.create_actor(moving(0, 0, 0)).unwrap();
    scene.destroy_actor(a);
    scene.destroy_actor(b);
    let c = scene.create_actor(moving(0, 0, 0)).unwrap();
    assert_eq!((a.index(), b.index(), c.index()), (1, 2, 3));
    assert!(a != b && b != c && a != c);
    assert_eq!(scene.created(), 3);
}

#[test]
fn live_actors_are_creations_less_destructions_of_live_actors() {
    let mut scene = Scene::new();
    let a = scene.create_actor(moving(1, 1, 1)).unwrap();
    let b = scene.create_actor(vec![(health(), le(&[9]))]).unwrap();
    let c = scene.create_actor(moving(3, 3, 3)).unwrap();
    assert_eq!(scene.len(), 3);
    scene.destroy_actor(b);
    assert_eq!(scene.len(), 2);
    scene.destroy_actor(b);
    assert_eq!(scene.len(), 2);
    scene.destroy_actor(a);
    scene.destroy_actor(c);
    assert_eq!(scene.len(), 0);
    assert!(scene.create_actor(vec![(health(), le(&[1])), (health(), le(&[2]))]).is_err());
    assert_eq!(scene.len(), 0);
    assert_eq!(scene.created(), 3);
}

#[test]
fn same_types_in_any_order_share_an_archetype() {
    let mut scene = Scene::new();
    let a = scene.create_actor(moving(1, 2, 3)).unwrap();
    let b = scene
        .create_actor(vec![(velocity(), le(&[6])), (position(), le(&[4, 5]))])
        .unwrap();
    assert_eq!(scene.archetype_count(), 1);
    assert_eq!(scene.get_component(b, position()), Some(&le(&[4, 5])[..]));
    assert_eq!(scene.get_component(b, velocity()), Some(&le(&[6])[..]));
    assert_eq!(scene.get_component(a, position()), Some(&le(&[1, 2])[..]));
}

#[test]
fn other_types_get_another_archetype() {
    let mut scene = Scene::new();
    let a = scene.create_actor(moving(1, 2, 3)).unwrap();
    let b = scene
        .create_actor(vec![
            (position(), le(&[4, 5])),
            (velocity(), le(&[6])),
            (health(), le(&[7])),
        ])
        .unwrap();
    let c = scene.create_actor(vec![(position(), le(&[8, 9]))]).unwrap();
    assert_eq!(scene.archetype_count(), 3);
    assert_eq!(scene.get_component(a, health()), None);
    assert_eq!(scene.get_component(b, health()), Some(&le(&[7])[..]));
    assert_eq!(scene.get_component(c, velocity()), None);
    assert_eq!(scene.get_component(c, position()), Some(&le(&[8, 9])[..]));
}

#[test]
fn seventeen_actors_grow_the_default_capacity_once() {
    let mut scene = Scene::new();
    let mut actors = Vec::new();
    for n in 0..16 {
        let actor = scene.create_actor(moving(n, -n, 100 + n)).unwrap();
        assert_eq!(scene.capacity_of(actor), Some(16));
        actors.push(actor);
    }
    let last = scene.create_actor(moving(16, -16, 116)).unwrap();
    actors.push(last);
    assert_eq!(scene.archetype_count(), 1);
    assert_eq!(scene.len(), 17);
    for (n, actor) in actors.iter().enumerate() {
        let n = n as i32;
        assert_eq!(scene.capacity_of(*actor), Some(32));
        assert_eq!(scene.get_component(*actor, position()), Some(&le(&[n, -n])[..]));
        assert_eq!(scene.get_component(*actor, velocity()), Some(&le(&[100 + n])[..]));
    }
}

#[test]
fn thirty_three_actors_grow_twice() {
    let mut scene = Scene::new();
    let mut last = None;
    for n in 0..33 {
        last = Some(scene.create_actor(moving(n, n, n)).unwrap());
    }
    assert_eq!(scene.capacity_of(last.unwrap()), Some(64));
    assert_eq!(scene.len(), 33);
}

#[test]
fn duplicate_component_type_is_refused() {
    let mut scene = Scene::new();
    let r = scene.create_actor(vec![(velocity(), le(&[3])), (velocity(), le(&[4]))]);
    assert_eq!(r, Err(StoreError::DuplicateComponentType));
    assert_eq!(scene.created(), 0);
    assert_eq!(scene.archetype_count(), 0);
}

#[test]
fn value_of_the_wrong_length_is_refused() {
    let mut scene = Scene::new();
    let r = scene.create_actor(vec![(position(), le(&[1]))]);
    assert_eq!(r, Err(StoreError::BundleMismatch));
    assert_eq!(scene.created(), 0);
    assert_eq!(scene.archetype_count(), 0);
}

#[test]
fn invalid_descriptor_is_refused() {
    let mut scene = Scene::new();
    let odd = TypeInfo::new(9, 3, 3, false);
    let r = scene.create_actor(vec![(odd, vec![0, 0, 0])]);
    assert_eq!(r, Err(StoreError::InvalidType));
    assert_eq!(scene.created(), 0);
    assert_eq!(scene.archetype_count(), 0);
}

#[test]
fn duplicates_are_told_before_lengths() {
    let mut scene = Scene::new();
    let r = scene.create_actor(vec![(position(), le(&[1])), (position(), le(&[1, 2]))]);
    assert_eq!(r, Err(StoreError::DuplicateComponentType));
}

#[test]
fn refused_creation_issues_no_identity() {
    let mut scene = Scene::new();
    assert!(scene.create_actor(vec![(position(), le(&[1]))]).is_err());
    let a = scene.create_actor(moving(1, 2, 3)).unwrap();
    assert_eq!(a.index(), 1);
}

#[test]
fn actor_without_components_is_alive() {
    let mut scene = Scene::new();
    let a = scene.create_actor(vec![]).unwrap();
    assert!(scene.contains(a));
    assert_eq!(scene.get_component(a, position()), None);
    assert_eq!(scene.destroy_actor(a), vec![]);
    assert!(!scene.contains(a));
}

#[test]
fn destroy_owes_the_destructors_once() {
    let mut scene = Scene::new();
    let label = vec![7u8; 24];
    let a = scene
        .create_actor(vec![(health(), le(&[5])), (name(), label.clone())])
        .unwrap();
    let b = scene
        .create_actor(vec![(name(), vec![8u8; 24]), (health(), le(&[6]))])
        .unwrap();
    assert_eq!(scene.destroy_actor(a), vec![(name(), label)]);
    assert!(!scene.contains(a));
    assert_eq!(scene.get_component(a, health()), None);
    assert_eq!(scene.destroy_actor(a), vec![]);
    assert_eq!(scene.get_component(b, health()), Some(&le(&[6])[..]));
    assert_eq!(scene.get_component(b, name()), Some(&[8u8; 24][..]));
}

#[test]
fn destroying_an_actor_of_another_scene_is_no_error() {
    let mut scene = Scene::new();
    let a = scene.create_actor(moving(1, 2, 3)).unwrap();
    scene.destroy_actor(a);
    let mut other = Scene::new();
    let b = other.create_actor(moving(1, 2, 3)).unwrap();
    assert_eq!(scene.destroy_actor(b), vec![]);
    assert_eq!(scene.len(), 0);
}

#[test]
fn destroyed_slot_is_used_again() {
    let mut scene = Scene::new();
    let mut actors = Vec::new();
    for n in 0..16 {
        actors.push(scene.create_actor(moving(n, n, n)).unwrap());
    }
    scene.destroy_actor(actors[5]);
    let fresh = scene.create_actor(moving(50, 51, 52)).unwrap();
    assert_eq!(scene.capacity_of(fresh), Some(16));
    assert_eq!(scene.get_component(fresh, position()), Some(&le(&[50, 51])[..]));
    assert_eq!(scene.get_component(actors[4], position()), Some(&le(&[4, 4])[..]));
    assert_eq!(scene.get_component(actors[6], velocity()), Some(&le(&[6])[..]));
    assert_eq!(scene.get_component(actors[5], position()), None);
}

#[test]
fn component_of_a_scene_can_be_changed_in_place() {
    let mut scene = Scene::new();
    let a = scene.create_actor(moving(1, 2, 3)).unwrap();
    let b = scene.create_actor(moving(4, 5, 6)).unwrap();
    scene.component_mut(a, velocity()).copy_from_slice(&le(&[30]));
    {
        let bytes = scene.get_component_mut(b, position()).unwrap();
        bytes[0] = 44;
    }
    assert_eq!(scene.get_component(a, velocity()), Some(&le(&[30])[..]));
    assert_eq!(scene.get_component(a, position()), Some(&le(&[1, 2])[..]));
    assert_eq!(scene.get_component(b, position()), Some(&le(&[44, 5])[..]));
    assert_eq!(scene.get_component(b, velocity()), Some(&le(&[6])[..]));
    assert!(scene.get_component_mut(a, health()).is_none());
    scene.destroy_actor(a);
    assert!(scene.get_component_mut(a, velocity()).is_none());
}

#[test]
fn inserting_a_resource_again_hands_back_the_first() {
    let mut scene = Scene::new();
    let config = 77;
    assert_eq!(scene.insert_resource(config, vec![1]), None);
    assert_eq!(scene.insert_resource(config, vec![0]), Some(vec![1]));
    assert_eq!(scene.get_resource(config), Some(&vec![0]));
    assert_eq!(scene.resource(config), &vec![0]);
}

#[test]
fn resources_are_kept_by_type() {
    let mut scene = Scene::new();
    scene.insert_resource(1, vec![1, 1]);
    scene.insert_resource(2, vec![2]);
    assert_eq!(scene.get_resource(1), Some(&vec![1, 1]));
    assert_eq!(scene.get_resource(2), Some(&vec![2]));
    assert_eq!(scene.get_resource(3), None);
    assert_eq!(scene.remove_resource(1), Some(vec![1, 1]));
    assert_eq!(scene.remove_resource(1), None);
    assert_eq!(scene.get_resource(1), None);
    assert_eq!(scene.get_resource(2), Some(&vec![2]));
}

#[test]
fn resource_can_be_changed_in_place() {
    let mut scene = Scene::new();
    scene.insert_resource(5, vec![1, 2, 3]);
    scene.resource_mut(5).push(4);
    if let Some(value) = scene.get_resource_mut(5) {
        value[0] = 9;
    }
    assert_eq!(scene.get_resource(5), Some(&vec![9, 2, 3, 4]));
    assert!(scene.get_resource_mut(6).is_none());
}

#[test]
fn resources_and_actors_do_not_touch() {
    let mut scene = Scene::new();
    let a = scene.create_actor(moving(1, 2, 3)).unwrap();
    scene.insert_resource(1, vec![42]);
    assert_eq!(scene.get_component(a, position()), Some(&le(&[1, 2])[..]));
    scene.destroy_actor(a);
    assert_eq!(scene.get_resource(1), Some(&vec![42]));
    assert_eq!(scene.len(), 0);
}

#[test]
fn teardown_owes_every_live_actor_once() {
    let mut scene = Scene::new();
    let a = scene
        .create_actor(vec![(health(), le(&[1])), (name(), vec![1u8; 24])])
        .unwrap();
    let b = scene.create_actor(moving(1, 2, 3)).unwrap();
    let c = scene.create_actor(vec![(name(), vec![3u8; 24])]).unwrap();
    let d = scene
        .create_actor(vec![(name(), vec![4u8; 24]), (health(), le(&[4]))])
        .unwrap();
    scene.destroy_actor(a);
    scene.insert_resource(9, vec![9]);
    let (owed, resources) = scene.teardown();
    assert_eq!(
        owed,
        vec![
            (d, vec![(name(), vec![4u8; 24])]),
            (b, vec![]),
            (c, vec![(name(), vec![3u8; 24])]),
        ]
    );
    assert_eq!(resources.len(), 1);
    assert_eq!(resources.get(&9), Some(&vec![9]));
}

#[test]
fn actor_is_created_alike_from_a_source_and_from_its_components() {
    let mut scene = Scene::new();
    let a = scene.create_actor(vec![(position(), le(&[7, 8]))]).unwrap();
    let b = scene.create_actor_with(vec![(position(), le(&[9, 10]))]).unwrap();
    assert_eq!(scene.archetype_count(), 1);
    assert_eq!(scene.get_component(a, position()), Some(&le(&[7, 8])[..]));
    assert_eq!(scene.get_component(b, position()), Some(&le(&[9, 10])[..]));
    assert_eq!((a.index(), b.index()), (1, 2));
}

#[test]
fn creation_from_the_components_themselves_is_refused_alike() {
    let mut scene = Scene::new();
    assert_eq!(
        scene.create_actor_with(vec![(health(), le(&[1])), (health(), le(&[1]))]),
        Err(StoreError::DuplicateComponentType)
    );
    assert_eq!(
        scene.create_actor_with(vec![(health(), vec![1])]),
        Err(StoreError::BundleMismatch)
    );
    assert_eq!(scene.created(), 0);
}

#[test]
fn two_descriptors_with_one_identity_are_one_type_given_twice() {
    let mut scene = Scene::new();
    let narrow = TypeInfo::new(2, 4, 4, false);
    let wide = TypeInfo::new(2, 8, 8, false);
    let r = scene.create_actor(vec![(narrow, le(&[1])), (wide, le(&[1, 2]))]);
    assert_eq!(r, Err(StoreError::DuplicateComponentType));
    assert_eq!(scene.created(), 0);
    assert_eq!(scene.archetype_count(), 0);
}

#[test]
fn components_of_a_scene_are_found_by_identity() {
    let mut scene = Scene::new();
    let a = scene.create_actor(moving(1, 2, 3)).unwrap();
    let wide = TypeInfo::new(2, 8, 8, true);
    assert_eq!(scene.get_component(a, wide), Some(&le(&[3])[..]));
    assert_eq!(scene.get_component(a, TypeInfo::new(1, 0, 1, false)), Some(&le(&[1, 2])[..]));
    assert_eq!(scene.get_component(a, TypeInfo::new(5, 4, 4, false)), None);
    {
        let bytes = scene.get_component_mut(a, wide).unwrap();
        assert_eq!(bytes.len(), 4);
        bytes[0] = 8;
    }
    assert_eq!(scene.get_component(a, velocity()), Some(&le(&[8])[..]));
}

#[test]
fn archetype_of_a_scene_is_found_by_identities() {
    let mut scene = Scene::new();
    let a = scene.create_actor(moving(1, 2, 3)).unwrap();
    let wide = TypeInfo::new(2, 8, 8, false);
    let r = scene.create_actor(vec![(position(), le(&[4, 5])), (wide, le(&[6, 7]))]);
    assert_eq!(r, Err(StoreError::BundleMismatch));
    assert_eq!(scene.created(), 1);
    assert_eq!(scene.archetype_count(), 1);
    assert_eq!(scene.len(), 1);
    let marked = TypeInfo::new(2, 4, 4, true);
    let b = scene.create_actor(vec![(marked, le(&[6])), (position(), le(&[4, 5]))]).unwrap();
    assert_eq!(b.index(), 2);
    assert_eq!(scene.archetype_count(), 1);
    assert_eq!(scene.get_component(b, velocity()), Some(&le(&[6])[..]));
    assert_eq!(scene.destroy_actor(b), vec![]);
    assert!(scene.contains(a));
}
