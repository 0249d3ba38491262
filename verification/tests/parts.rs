use thecs::batch::Batch;
use thecs::block::write_bytes;
use thecs::component::{types_in, values_well_sized};
use thecs::layout::pad;
use thecs::type_info::{all_types_valid, has_duplicates, is_power_of_two, position};
use thecs::{ActorFactory, ComponentSource, StoreError, TypeInfo};

#[test]
fn powers_of_two_are_told_apart() {
    assert!(!is_power_of_two(0));
    assert!(is_power_of_two(1));
    assert!(is_power_of_two(2));
    assert!(!is_power_of_two(3));
    assert!(is_power_of_two(4096));
    assert!(!is_power_of_two(4097));
    assert!(!is_power_of_two(6));
    assert!(is_power_of_two(1 << (usize::BITS - 1)));
    assert!(!is_power_of_two(usize::MAX));
}

#[test]
fn descriptor_is_valid_when_size_is_a_multiple_of_a_power_of_two() {
    assert!(TypeInfo::new(1, 0, 1, false).is_valid());
    assert!(TypeInfo::new(1, 24, 8, true).is_valid());
    assert!(!TypeInfo::new(1, 12, 8, true).is_valid());
    assert!(!TypeInfo::new(1, 9, 3, false).is_valid());
    assert!(!TypeInfo::new(1, 0, 0, false).is_valid());
}

#[test]
fn descriptor_of_a_type_has_its_layout() {
    let info = TypeInfo::of::<u64>(7, false);
    assert_eq!((info.id, info.size, info.align, info.needs_drop), (7, 8, 8, false));
    let pair = TypeInfo::of::<(u8, u32)>(8, true);
    assert_eq!((pair.id, pair.size, pair.align, pair.needs_drop), (8, 8, 4, true));
    let unit = TypeInfo::of::<()>(9, false);
    assert_eq!((unit.size, unit.align), (0, 1));
    assert!(info.is_valid() && pair.is_valid() && unit.is_valid());
}

#[test]
fn descriptors_are_equal_when_their_identities_are() {
    let a = TypeInfo::new(1, 4, 4, false);
    assert_eq!(a, TypeInfo::new(1, 4, 4, false));
    assert_ne!(a, TypeInfo::new(2, 4, 4, false));
    assert_eq!(a, TypeInfo::new(1, 8, 4, false));
    assert_eq!(a, TypeInfo::new(1, 4, 2, false));
    assert_eq!(a, TypeInfo::new(1, 4, 4, true));
    assert_eq!(TypeInfo::of::<u32>(3, false), TypeInfo::of::<u64>(3, true));
    assert_ne!(TypeInfo::of::<u32>(3, false), TypeInfo::of::<u32>(4, false));
}

#[test]
fn padding_finds_the_next_multiple() {
    assert_eq!(pad(0, 8), Some(0));
    assert_eq!(pad(1, 8), Some(8));
    assert_eq!(pad(8, 8), Some(8));
    assert_eq!(pad(9, 8), Some(16));
    assert_eq!(pad(13, 1), Some(13));
    assert_eq!(pad(13, 4), Some(16));
    assert_eq!(pad(usize::MAX, 2), None);
    assert_eq!(pad(usize::MAX - 1, 2), Some(usize::MAX - 1));
}

#[test]
fn duplicates_are_found_wherever_they_stand() {
    let a = TypeInfo::new(1, 4, 4, false);
    let b = TypeInfo::new(2, 4, 4, false);
    let c = TypeInfo::new(3, 4, 4, false);
    assert!(!has_duplicates(&vec![]));
    assert!(!has_duplicates(&vec![a]));
    assert!(!has_duplicates(&vec![a, b, c]));
    assert!(has_duplicates(&vec![a, a]));
    assert!(has_duplicates(&vec![a, b, c, b]));
    assert!(has_duplicates(&vec![c, b, a, c]));
}

#[test]
fn validity_of_a_list_is_that_of_each_member() {
    let good = TypeInfo::new(1, 4, 4, false);
    let bad = TypeInfo::new(2, 4, 3, false);
    assert!(all_types_valid(&vec![]));
    assert!(all_types_valid(&vec![good, good]));
    assert!(!all_types_valid(&vec![good, bad]));
    assert!(!all_types_valid(&vec![bad, good]));
}

#[test]
fn position_is_where_the_type_stands() {
    let a = TypeInfo::new(1, 4, 4, false);
    let b = TypeInfo::new(2, 4, 4, false);
    let c = TypeInfo::new(3, 4, 4, false);
    assert_eq!(position(&vec![a, b], a), Some(0));
    assert_eq!(position(&vec![a, b], b), Some(1));
    assert_eq!(position(&vec![a, b], c), None);
    assert_eq!(position(&vec![b, a, a], a), Some(1));
    assert_eq!(position(&vec![], a), None);
}

#[test]
fn types_and_sizes_of_values() {
    let a = TypeInfo::new(1, 2, 2, false);
    let b = TypeInfo::new(2, 0, 1, false);
    let values = vec![(a, vec![1, 2]), (b, vec![])];
    assert_eq!(types_in(&values), vec![a, b]);
    assert!(values_well_sized(&values));
    assert!(values_well_sized(&vec![]));
    assert!(!values_well_sized(&vec![(a, vec![1, 2]), (b, vec![0])]));
    assert!(!values_well_sized(&vec![(a, vec![1])]));
}

#[test]
fn writing_bytes_changes_the_range_written_and_no_other() {
    let mut block = vec![0u8, 1, 2, 3, 4, 5, 6, 7];
    write_bytes(&mut block, 2, &[9, 8, 7]);
    assert_eq!(block, vec![0, 1, 9, 8, 7, 5, 6, 7]);
    write_bytes(&mut block, 8, &[]);
    write_bytes(&mut block, 0, &[1]);
    write_bytes(&mut block, 7, &[2]);
    assert_eq!(block, vec![1, 1, 9, 8, 7, 5, 6, 2]);
}

#[test]
fn factory_issues_one_two_three() {
    let mut factory = ActorFactory::new();
    assert_eq!(factory.created(), 0);
    assert_eq!(factory.next().index(), 1);
    let a = factory.create();
    let b = factory.create();
    assert_eq!(factory.next().index(), 3);
    let c = factory.create();
    assert_eq!((a.index(), b.index(), c.index()), (1, 2, 3));
    assert_eq!(factory.created(), 3);
    assert_eq!(ActorFactory::default().created(), 0);
}

#[test]
fn values_are_a_source_of_themselves() {
    let a = TypeInfo::new(1, 2, 2, false);
    let b = TypeInfo::new(2, 1, 1, true);
    let values = vec![(a, vec![1, 2]), (b, vec![3])];
    assert_eq!(ComponentSource::types(&values), values);
    let none: Vec<(TypeInfo, Vec<u8>)> = vec![];
    assert_eq!(ComponentSource::types(&none), vec![]);
}

#[test]
fn batch_gives_the_types_and_the_bytes_of_each() {
    let a = TypeInfo::new(1, 2, 2, false);
    let b = TypeInfo::new(2, 1, 1, true);
    let values = vec![(a, vec![1, 2]), (b, vec![3])];
    assert_eq!(Batch::types(&values), Ok(vec![a, b]));
    assert_eq!(values.data(a), Some(vec![1, 2]));
    assert_eq!(values.data(b), Some(vec![3]));
    assert_eq!(values.data(TypeInfo::new(3, 1, 1, true)), None);
}

#[test]
fn batch_gives_the_first_of_a_type_given_twice() {
    let a = TypeInfo::new(1, 1, 1, false);
    let values = vec![(a, vec![1]), (a, vec![2])];
    assert_eq!(values.data(a), Some(vec![1]));
    assert_eq!(Batch::types(&values), Err(StoreError::DuplicateComponentType));
}

#[test]
fn duplicates_are_told_by_identity() {
    let narrow = TypeInfo::new(1, 4, 4, false);
    let wide = TypeInfo::new(1, 8, 8, true);
    let other = TypeInfo::new(2, 4, 4, false);
    assert!(has_duplicates(&vec![narrow, wide]));
    assert!(has_duplicates(&vec![narrow, other, wide]));
    assert!(!has_duplicates(&vec![narrow, other]));
    assert!(!has_duplicates(&vec![other, TypeInfo::new(3, 4, 4, false)]));
}

#[test]
fn position_goes_by_identity() {
    let narrow = TypeInfo::new(1, 4, 4, false);
    let wide = TypeInfo::new(1, 8, 8, true);
    let other = TypeInfo::new(2, 4, 4, false);
    assert_eq!(position(&vec![other, narrow], wide), Some(1));
    assert_eq!(position(&vec![wide, other], narrow), Some(0));
    assert_eq!(position(&vec![other], TypeInfo::new(3, 4, 4, false)), None);
}

#[test]
fn batch_goes_by_identity() {
    let narrow = TypeInfo::new(1, 2, 2, false);
    let wide = TypeInfo::new(1, 8, 8, true);
    let other = TypeInfo::new(2, 1, 1, false);
    let values = vec![(other, vec![9]), (narrow, vec![1, 2])];
    assert_eq!(values.data(wide), Some(vec![1, 2]));
    let twice = vec![(narrow, vec![1, 2]), (other, vec![9]), (wide, vec![0; 8])];
    assert_eq!(twice.data(wide), Some(vec![1, 2]));
    assert_eq!(Batch::types(&twice), Err(StoreError::DuplicateComponentType));
}
