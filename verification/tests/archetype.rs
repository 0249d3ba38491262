use thecs::layout::{BlockLayout, Entry};
use thecs::{ActorFactory, Archetype, StoreError, TypeInfo};

fn tag() -> TypeInfo {
    TypeInfo::new(10, 1, 1, false)
}

fn count() -> TypeInfo {
    TypeInfo::new(11, 4, 4, false)
}

fn stamp() -> TypeInfo {
    TypeInfo::new(12, 8, 8, true)
}

fn name() -> TypeInfo {
    TypeInfo::new(13, 2, 2, true)
}

fn row(n: u8) -> Vec<(TypeInfo, Vec<u8>)> {
    vec![(tag(), vec![n]), (count(), vec![n, 1, 2, 3]), (stamp(), vec![n; 8])]
}

fn three_columns(capacity: usize) -> Archetype {
    Archetype::new(capacity, &vec![tag(), count(), stamp()]).unwrap()
}

#[test]
fn new_archetype_is_empty() {
    let archetype = three_columns(4);
    assert_eq!(archetype.capacity(), 4);
    assert_eq!(archetype.len(), 0);
    let signature: Vec<(u64, usize, usize, bool)> =
        archetype.signature().iter().map(|t| (t.id, t.size, t.align, t.needs_drop)).collect();
    assert_eq!(signature, vec![(10, 1, 1, false), (11, 4, 4, false), (12, 8, 8, true)]);
    assert!(archetype.has_type(count()));
    assert!(!archetype.has_type(name()));
}

#[test]
fn columns_are_padded_to_their_alignment() {
    let archetype = three_columns(3);
    assert_eq!(archetype.layout(), BlockLayout { size: 40, align: 8 });
    assert_eq!(archetype.entry(tag()), Some(Entry { ty: tag(), size: 3, offset: 0 }));
    assert_eq!(archetype.entry(count()), Some(Entry { ty: count(), size: 12, offset: 4 }));
    assert_eq!(archetype.entry(stamp()), Some(Entry { ty: stamp(), size: 24, offset: 16 }));
    assert_eq!(archetype.entry(name()), None);
}

#[test]
fn layout_follows_the_order_of_the_signature() {
    let archetype = Archetype::new(2, &vec![stamp(), tag(), name(), count()]).unwrap();
    assert_eq!(archetype.entry(stamp()).unwrap().offset, 0);
    assert_eq!(archetype.entry(tag()).unwrap().offset, 16);
    assert_eq!(archetype.entry(name()).unwrap().offset, 18);
    assert_eq!(archetype.entry(count()).unwrap().offset, 24);
    assert_eq!(archetype.layout(), BlockLayout { size: 32, align: 8 });
}

#[test]
fn archetype_without_columns_has_an_empty_block() {
    let mut archetype = Archetype::new(2, &vec![]).unwrap();
    assert_eq!(archetype.layout(), BlockLayout { size: 0, align: 1 });
    let mut factory = ActorFactory::new();
    let a = factory.create();
    assert_eq!(archetype.create_actor(a, &vec![]), Ok(()));
    assert!(archetype.has_actor(a));
    assert_eq!(archetype.get_component(a, tag()), None);
}

#[test]
fn zero_sized_components_take_no_room() {
    let unit = TypeInfo::new(20, 0, 1, false);
    let mut archetype = Archetype::new(4, &vec![unit, count()]).unwrap();
    assert_eq!(archetype.layout(), BlockLayout { size: 16, align: 4 });
    let mut factory = ActorFactory::new();
    let a = factory.create();
    archetype
        .create_actor(a, &vec![(count(), vec![9, 9, 9, 9]), (unit, vec![])])
        .unwrap();
    assert_eq!(archetype.get_component(a, unit), Some(&[][..]));
    assert_eq!(archetype.get_component(a, count()), Some(&[9u8, 9, 9, 9][..]));
}

#[test]
fn new_refuses_zero_capacity() {
    assert_eq!(Archetype::new(0, &vec![tag()]).err(), Some(StoreError::ZeroCapacity));
}

#[test]
fn new_refuses_an_alignment_that_is_no_power_of_two() {
    let odd = TypeInfo::new(30, 6, 3, false);
    assert_eq!(Archetype::new(4, &vec![tag(), odd]).err(), Some(StoreError::InvalidType));
    let none = TypeInfo::new(31, 4, 0, false);
    assert_eq!(Archetype::new(4, &vec![none]).err(), Some(StoreError::InvalidType));
}

#[test]
fn new_refuses_a_size_that_is_no_multiple_of_the_alignment() {
    let ragged = TypeInfo::new(32, 6, 4, false);
    assert_eq!(Archetype::new(4, &vec![ragged]).err(), Some(StoreError::InvalidType));
}

#[test]
fn new_refuses_a_type_given_twice() {
    assert_eq!(
        Archetype::new(4, &vec![tag(), count(), tag()]).err(),
        Some(StoreError::DuplicateComponentType)
    );
}

#[test]
fn new_refuses_a_block_that_is_too_large() {
    let huge = TypeInfo::new(33, (isize::MAX as usize / 8) & !7, 8, false);
    assert_eq!(Archetype::new(16, &vec![huge]).err(), Some(StoreError::BlockTooLarge));
    let small = TypeInfo::new(34, 8, 8, false);
    assert_eq!(
        Archetype::new(isize::MAX as usize / 8 + 1, &vec![small]).err(),
        Some(StoreError::BlockTooLarge)
    );
    assert_eq!(
        Archetype::new(isize::MAX as usize + 1, &vec![]).err(),
        Some(StoreError::BlockTooLarge)
    );
}

#[test]
fn errors_come_in_a_fixed_order() {
    let odd = TypeInfo::new(30, 6, 3, false);
    assert_eq!(Archetype::new(0, &vec![odd, odd]).err(), Some(StoreError::ZeroCapacity));
    assert_eq!(Archetype::new(1, &vec![odd, odd]).err(), Some(StoreError::InvalidType));
}

#[test]
fn created_actor_reads_back_each_value() {
    let mut archetype = three_columns(4);
    let mut factory = ActorFactory::new();
    let a = factory.create();
    assert_eq!(archetype.create_actor(a, &row(7)), Ok(()));
    assert!(archetype.has_actor(a));
    assert_eq!(archetype.len(), 1);
    assert_eq!(archetype.get_component(a, tag()), Some(&[7u8][..]));
    assert_eq!(archetype.get_component(a, count()), Some(&[7u8, 1, 2, 3][..]));
    assert_eq!(archetype.get_component(a, stamp()), Some(&[7u8; 8][..]));
    assert_eq!(archetype.get_component(a, name()), None);
}

#[test]
fn values_may_come_in_any_order() {
    let mut archetype = three_columns(4);
    let mut factory = ActorFactory::new();
    let a = factory.create();
    let shuffled = vec![(stamp(), vec![5; 8]), (tag(), vec![6]), (count(), vec![1, 2, 3, 4])];
    assert_eq!(archetype.create_actor(a, &shuffled), Ok(()));
    assert_eq!(archetype.get_component(a, tag()), Some(&[6u8][..]));
    assert_eq!(archetype.get_component(a, count()), Some(&[1u8, 2, 3, 4][..]));
    assert_eq!(archetype.get_component(a, stamp()), Some(&[5u8; 8][..]));
}

#[test]
fn unknown_actor_has_no_component() {
    let mut archetype = three_columns(4);
    let mut factory = ActorFactory::new();
    let a = factory.create();
    let b = factory.create();
    archetype.create_actor(a, &row(1)).unwrap();
    assert!(!archetype.has_actor(b));
    assert_eq!(archetype.get_component(b, tag()), None);
    assert_eq!(archetype.slot_of(b), None);
}

#[test]
fn create_refuses_a_type_given_twice_and_changes_nothing() {
    let mut archetype = three_columns(4);
    let mut factory = ActorFactory::new();
    let a = factory.create();
    let twice = vec![(tag(), vec![1]), (tag(), vec![2]), (stamp(), vec![0; 8])];
    assert_eq!(archetype.create_actor(a, &twice), Err(StoreError::DuplicateComponentType));
    assert!(!archetype.has_actor(a));
    assert_eq!(archetype.len(), 0);
}

#[test]
fn create_refuses_values_that_are_not_the_signature() {
    let mut archetype = three_columns(4);
    let mut factory = ActorFactory::new();
    let a = factory.create();
    let fewer = vec![(tag(), vec![1]), (count(), vec![0; 4])];
    assert_eq!(archetype.create_actor(a, &fewer), Err(StoreError::BundleMismatch));
    let other = vec![(tag(), vec![1]), (count(), vec![0; 4]), (name(), vec![0; 2])];
    assert_eq!(archetype.create_actor(a, &other), Err(StoreError::BundleMismatch));
    let more = vec![
        (tag(), vec![1]),
        (count(), vec![0; 4]),
        (stamp(), vec![0; 8]),
        (name(), vec![0; 2]),
    ];
    assert_eq!(archetype.create_actor(a, &more), Err(StoreError::BundleMismatch));
    assert_eq!(archetype.len(), 0);
}

#[test]
fn create_refuses_a_value_of_the_wrong_length() {
    let mut archetype = three_columns(4);
    let mut factory = ActorFactory::new();
    let a = factory.create();
    let short = vec![(tag(), vec![1]), (count(), vec![0; 3]), (stamp(), vec![0; 8])];
    assert_eq!(archetype.create_actor(a, &short), Err(StoreError::BundleMismatch));
    assert!(!archetype.has_actor(a));
}

#[test]
fn slots_are_given_lowest_first_and_reused() {
    let mut archetype = three_columns(4);
    let mut factory = ActorFactory::new();
    let a = factory.create();
    let b = factory.create();
    let c = factory.create();
    let d = factory.create();
    archetype.create_actor(a, &row(1)).unwrap();
    archetype.create_actor(b, &row(2)).unwrap();
    archetype.create_actor(c, &row(3)).unwrap();
    assert_eq!(archetype.slot_of(a), Some(0));
    assert_eq!(archetype.slot_of(b), Some(1));
    assert_eq!(archetype.slot_of(c), Some(2));
    archetype.destroy_actor(b);
    assert_eq!(archetype.slot_of(b), None);
    archetype.create_actor(d, &row(4)).unwrap();
    assert_eq!(archetype.slot_of(d), Some(1));
    assert_eq!(archetype.get_component(d, tag()), Some(&[4u8][..]));
    assert_eq!(archetype.get_component(a, tag()), Some(&[1u8][..]));
    assert_eq!(archetype.get_component(c, tag()), Some(&[3u8][..]));
    assert_eq!(archetype.capacity(), 4);
}

#[test]
fn full_archetype_doubles_and_keeps_every_value() {
    let mut archetype = three_columns(2);
    let mut factory = ActorFactory::new();
    let a = factory.create();
    let b = factory.create();
    let c = factory.create();
    archetype.create_actor(a, &row(1)).unwrap();
    archetype.create_actor(b, &row(2)).unwrap();
    assert_eq!(archetype.capacity(), 2);
    let before = archetype.layout();
    archetype.create_actor(c, &row(3)).unwrap();
    assert_eq!(archetype.capacity(), 4);
    assert_eq!(archetype.slot_of(c), Some(2));
    assert_eq!(before, BlockLayout { size: 32, align: 8 });
    assert_eq!(archetype.layout(), BlockLayout { size: 56, align: 8 });
    assert_eq!(archetype.entry(count()), Some(Entry { ty: count(), size: 16, offset: 4 }));
    assert_eq!(archetype.entry(stamp()), Some(Entry { ty: stamp(), size: 32, offset: 24 }));
    for (actor, n) in [(a, 1u8), (b, 2), (c, 3)] {
        assert_eq!(archetype.get_component(actor, tag()), Some(&[n][..]));
        assert_eq!(archetype.get_component(actor, count()), Some(&[n, 1, 2, 3][..]));
        assert_eq!(archetype.get_component(actor, stamp()), Some(&[n; 8][..]));
    }
}

#[test]
fn seventeenth_actor_grows_sixteen_slots_to_thirty_two() {
    let mut archetype = three_columns(16);
    let mut factory = ActorFactory::new();
    let mut actors = Vec::new();
    for n in 0..16u8 {
        let actor = factory.create();
        archetype.create_actor(actor, &row(n)).unwrap();
        assert_eq!(archetype.capacity(), 16);
        actors.push(actor);
    }
    let last = factory.create();
    archetype.create_actor(last, &row(16)).unwrap();
    actors.push(last);
    assert_eq!(archetype.capacity(), 32);
    assert_eq!(archetype.len(), 17);
    for (n, actor) in actors.iter().enumerate() {
        assert_eq!(archetype.slot_of(*actor), Some(n));
        assert_eq!(archetype.get_component(*actor, tag()), Some(&[n as u8][..]));
        assert_eq!(archetype.get_component(*actor, count()), Some(&[n as u8, 1, 2, 3][..]));
        assert_eq!(archetype.get_component(*actor, stamp()), Some(&[n as u8; 8][..]));
    }
}

#[test]
fn destroy_owes_one_destructor_for_each_column_that_has_one() {
    let mut archetype = Archetype::new(4, &vec![tag(), stamp(), count(), name()]).unwrap();
    let mut factory = ActorFactory::new();
    let a = factory.create();
    let values = vec![
        (tag(), vec![1]),
        (stamp(), vec![2; 8]),
        (count(), vec![3; 4]),
        (name(), vec![4; 2]),
    ];
    archetype.create_actor(a, &values).unwrap();
    let owed = archetype.destroy_actor(a);
    assert_eq!(owed, vec![(stamp(), vec![2; 8]), (name(), vec![4; 2])]);
    assert!(!archetype.has_actor(a));
    assert_eq!(archetype.len(), 0);
}

#[test]
fn destroying_twice_owes_nothing_the_second_time() {
    let mut archetype = three_columns(4);
    let mut factory = ActorFactory::new();
    let a = factory.create();
    let b = factory.create();
    archetype.create_actor(a, &row(1)).unwrap();
    archetype.create_actor(b, &row(2)).unwrap();
    assert_eq!(archetype.destroy_actor(a), vec![(stamp(), vec![1; 8])]);
    assert_eq!(archetype.destroy_actor(a), vec![]);
    assert_eq!(archetype.len(), 1);
    assert_eq!(archetype.get_component(b, tag()), Some(&[2u8][..]));
}

#[test]
fn destroying_an_unknown_actor_changes_nothing() {
    let mut archetype = three_columns(4);
    let mut factory = ActorFactory::new();
    let a = factory.create();
    let b = factory.create();
    archetype.create_actor(a, &row(1)).unwrap();
    assert_eq!(archetype.destroy_actor(b), vec![]);
    assert_eq!(archetype.len(), 1);
    assert_eq!(archetype.get_component(a, count()), Some(&[1u8, 1, 2, 3][..]));
}

#[test]
fn teardown_owes_each_held_slot_once_in_slot_order() {
    let mut archetype = three_columns(2);
    let mut factory = ActorFactory::new();
    let a = factory.create();
    let b = factory.create();
    let c = factory.create();
    archetype.create_actor(a, &row(1)).unwrap();
    archetype.create_actor(b, &row(2)).unwrap();
    archetype.create_actor(c, &row(3)).unwrap();
    archetype.destroy_actor(b);
    let owed = archetype.teardown();
    assert_eq!(
        owed,
        vec![(a, vec![(stamp(), vec![1; 8])]), (c, vec![(stamp(), vec![3; 8])])]
    );
}

#[test]
fn teardown_of_an_empty_archetype_owes_nothing() {
    assert_eq!(three_columns(16).teardown(), vec![]);
}

#[test]
fn has_types_asks_for_the_exact_set() {
    let archetype = three_columns(4);
    assert!(archetype.has_types(&vec![tag(), count(), stamp()]));
    assert!(archetype.has_types(&vec![stamp(), tag(), count()]));
    assert!(!archetype.has_types(&vec![tag(), count()]));
    assert!(!archetype.has_types(&vec![tag(), count(), name()]));
    assert!(!archetype.has_types(&vec![tag(), count(), stamp(), name()]));
    assert!(!archetype.has_types(&vec![]));
}

#[test]
fn a_type_is_found_by_its_identity_alone() {
    let mut archetype = three_columns(4);
    let mut factory = ActorFactory::new();
    let a = factory.create();
    archetype.create_actor(a, &row(5)).unwrap();
    let wider = TypeInfo::new(11, 8, 8, true);
    assert!(archetype.has_type(count()));
    assert!(archetype.has_type(wider));
    assert!(!archetype.has_type(TypeInfo::new(14, 4, 4, false)));
    assert!(archetype.has_types(&vec![stamp(), wider, tag()]));
    assert_eq!(archetype.get_component(a, wider), Some(&[5u8, 1, 2, 3][..]));
    let found = archetype.entry(wider).unwrap();
    assert_eq!((found.ty.size, found.ty.align, found.ty.needs_drop), (4, 4, false));
    assert_eq!((found.offset, found.size), (4, 16));
    {
        let bytes = archetype.get_component_mut(a, wider).unwrap();
        assert_eq!(bytes.len(), 4);
        bytes[1] = 77;
    }
    assert_eq!(archetype.get_component(a, count()), Some(&[5u8, 77, 2, 3][..]));
}

#[test]
fn new_refuses_two_descriptors_with_one_identity() {
    let narrow = TypeInfo::new(11, 4, 4, false);
    let wide = TypeInfo::new(11, 8, 8, false);
    assert_eq!(
        Archetype::new(4, &vec![narrow, tag(), wide]).err(),
        Some(StoreError::DuplicateComponentType)
    );
    assert_eq!(
        Archetype::new(4, &vec![TypeInfo::new(11, 3, 2, false), wide]).err(),
        Some(StoreError::InvalidType)
    );
}

#[test]
fn create_refuses_two_values_of_one_identity() {
    let mut archetype = three_columns(4);
    let mut factory = ActorFactory::new();
    let a = factory.create();
    let wider = TypeInfo::new(11, 8, 8, false);
    let twice = vec![(count(), vec![0; 4]), (wider, vec![0; 8]), (stamp(), vec![0; 8])];
    assert_eq!(archetype.create_actor(a, &twice), Err(StoreError::DuplicateComponentType));
    assert_eq!(archetype.len(), 0);
}

#[test]
fn create_asks_for_values_as_long_as_the_columns_take() {
    let mut archetype = three_columns(4);
    let mut factory = ActorFactory::new();
    let a = factory.create();
    let wider = TypeInfo::new(11, 8, 8, false);
    let long = vec![(tag(), vec![1]), (wider, vec![0; 8]), (stamp(), vec![0; 8])];
    assert_eq!(archetype.create_actor(a, &long), Err(StoreError::BundleMismatch));
    assert!(!archetype.has_actor(a));
    let fitting = vec![(tag(), vec![1]), (wider, vec![9, 8, 7, 6]), (stamp(), vec![2; 8])];
    assert_eq!(archetype.create_actor(a, &fitting), Ok(()));
    assert_eq!(archetype.get_component(a, count()), Some(&[9u8, 8, 7, 6][..]));
    let owed = archetype.destroy_actor(a);
    assert_eq!(owed.len(), 1);
    assert_eq!((owed[0].0.id, owed[0].0.size, owed[0].0.needs_drop), (12, 8, true));
    assert_eq!(owed[0].1, vec![2u8; 8]);
}

#[test]
fn component_can_be_changed_in_place() {
    let mut archetype = three_columns(2);
    let mut factory = ActorFactory::new();
    let a = factory.create();
    let b = factory.create();
    archetype.create_actor(a, &row(1)).unwrap();
    archetype.create_actor(b, &row(2)).unwrap();
    {
        let bytes = archetype.get_component_mut(a, count()).unwrap();
        assert_eq!(bytes, &[1u8, 1, 2, 3][..]);
        bytes[0] = 40;
        bytes[3] = 43;
    }
    assert_eq!(archetype.get_component(a, count()), Some(&[40u8, 1, 2, 43][..]));
    assert_eq!(archetype.get_component(a, tag()), Some(&[1u8][..]));
    assert_eq!(archetype.get_component(a, stamp()), Some(&[1u8; 8][..]));
    assert_eq!(archetype.get_component(b, count()), Some(&[2u8, 1, 2, 3][..]));
    assert!(archetype.get_component_mut(a, name()).is_none());
    let c = factory.create();
    assert!(archetype.get_component_mut(c, count()).is_none());
}

#[test]
fn identities_of_a_signature_are_pairwise_different() {
    let archetype = three_columns(2);
    let types = archetype.signature();
    for a in 0..types.len() {
        for b in 0..a {
            assert_ne!(types[a].id, types[b].id);
        }
    }
}
