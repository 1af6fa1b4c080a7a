use bevy_tools::{
    process_tag_operations, GameplayTag, GameplayTagContainer, GameplayTagContainerPool,
    GameplayTagManager,
    GameplayTagOperation, GameplayTagRegister, UniqueNamePool, MAX_TAG_COUNTS,
};

struct World {
    pool: UniqueNamePool,
    manager: GameplayTagManager,
}

fn world() -> World {
    World { pool: UniqueNamePool::default(), manager: GameplayTagManager::default() }
}

fn register(world: &mut World, path: &str) -> GameplayTag {
    let mut register = GameplayTagRegister {
        unique_name_pool: &mut world.pool,
        gameplay_tag_manager: &mut world.manager,
    };
    register.request_or_register_tag(path).unwrap()
}

#[test]
fn registering_a_path_registers_its_ancestors_first() {
    let mut world = world();
    let leaf = register(&mut world, "A.B.C");
    assert_eq!(leaf.get_bit_index_u16(), 2);
    assert_eq!(register(&mut world, "A").get_bit_index_u16(), 0);
    assert_eq!(register(&mut world, "A.B").get_bit_index_u16(), 1);
    assert_eq!(world.manager.tag_count(), 3);
}

#[test]
fn tag_registration_is_idempotent() {
    let mut world = world();
    let first = register(&mut world, "Effect.Debuff.Stun");
    let count = world.manager.tag_count();
    let names = world.pool.len();
    let second = register(&mut world, "Effect.Debuff.Stun");
    assert_eq!(first, second);
    assert_eq!(world.manager.tag_count(), count);
    assert_eq!(world.pool.len(), names);
}

#[test]
fn registration_matches_the_startup_sequence() {
    let mut world = world();
    let ability = register(&mut world, "Ability");
    let effect = register(&mut world, "Effect");
    let character = register(&mut world, "Character");
    let fireball = register(&mut world, "Ability.Fireball");
    let heal = register(&mut world, "Ability.Heal");
    let stun = register(&mut world, "Effect.Debuff.Stun");
    let speed = register(&mut world, "Effect.Buff.Speed");
    assert_eq!(ability.get_bit_index_u16(), 0);
    assert_eq!(effect.get_bit_index_u16(), 1);
    assert_eq!(character.get_bit_index_u16(), 2);
    assert_eq!(fireball.get_bit_index_u16(), 3);
    assert_eq!(heal.get_bit_index_u16(), 4);
    assert_eq!(stun.get_bit_index_u16(), 6);
    assert_eq!(speed.get_bit_index_u16(), 8);
    assert_eq!(stun.get_bit_index_usize(), 6);
}

#[test]
fn inherited_bits_hold_the_tag_and_its_ancestors() {
    let mut world = world();
    let leaf = register(&mut world, "A.B.C");
    let other = register(&mut world, "A.D");
    let bits = world.manager.get_inherited_bits(&leaf).unwrap();
    assert_eq!(bits[0], 0b111);
    let bits = world.manager.get_inherited_bits(&other).unwrap();
    assert_eq!(bits[0], 0b1001);
    assert!(world.manager.get_inherited_bits(&GameplayTag::new(4)).is_none());
}

#[test]
fn register_tag_internal_reuses_a_registered_name() {
    let mut world = world();
    let root = world.pool.new_name("Root");
    let child = world.pool.new_name("Root.Child");
    let first = world.manager.register_tag_internal(root, None);
    let second = world.manager.register_tag_internal(child, Some(first.get_bit_index_u16()));
    let again = world.manager.register_tag_internal(child, None);
    assert_eq!(first.get_bit_index_u16(), 0);
    assert_eq!(second.get_bit_index_u16(), 1);
    assert_eq!(again, second);
    assert_eq!(world.manager.get_tag(child), Some(second));
    assert_eq!(world.manager.get_inherited_bits(&second).unwrap()[0], 0b11);
}

#[test]
fn register_tag_internal_ignores_an_unregistered_parent() {
    let mut world = world();
    let name = world.pool.new_name("Orphan");
    let tag = world.manager.register_tag_internal(name, Some(40));
    assert_eq!(world.manager.get_inherited_bits(&tag).unwrap()[0], 0b1);
}

#[test]
fn request_uses_a_registered_ancestor_as_it_is() {
    let mut world = world();
    let middle = world.pool.new_name("A.B");
    let direct = world.manager.register_tag_internal(middle, None);
    let leaf = register(&mut world, "A.B.C");
    assert_eq!(direct.get_bit_index_u16(), 0);
    assert_eq!(leaf.get_bit_index_u16(), 1);
    assert_eq!(world.manager.tag_count(), 2);
    assert_eq!(world.manager.get_inherited_bits(&leaf).unwrap()[0], 0b11);
}

#[test]
fn tag_registration_stops_at_capacity() {
    let mut world = world();
    for k in 0..MAX_TAG_COUNTS {
        let tag = register(&mut world, &format!("Tag{}", k));
        assert_eq!(tag.get_bit_index_usize(), k);
    }
    let mut register = GameplayTagRegister {
        unique_name_pool: &mut world.pool,
        gameplay_tag_manager: &mut world.manager,
    };
    assert_eq!(register.request_or_register_tag("OneTooMany"), None);
    assert_eq!(
        register.request_or_register_tag("Tag17").map(|tag| tag.get_bit_index_u16()),
        Some(17)
    );
}

#[test]
fn add_tag_grants_ancestors() {
    let mut world = world();
    let leaf = register(&mut world, "A.B.C");
    let root = register(&mut world, "A");
    let middle = register(&mut world, "A.B");
    let mut container = GameplayTagContainer::new();
    container.add_tag(&leaf, &world.manager);
    assert!(container.has_all(&[root, middle, leaf]));
    assert!(container.has_tag(&root));
    assert!(container.has_tag(&middle));
    assert!(container.has_tag(&leaf));
    assert_eq!(&container.get()[0..3], &[1, 1, 1]);
    assert_eq!(container.get_bits()[0], 0b111);
}

#[test]
fn remove_tag_keeps_ancestors_that_are_still_held() {
    let mut world = world();
    let leaf = register(&mut world, "A.B.C");
    let root = register(&mut world, "A");
    let middle = register(&mut world, "A.B");
    let mut container = GameplayTagContainer::new();
    container.add_tag(&leaf, &world.manager);
    container.add_tag(&middle, &world.manager);
    container.remove_tag(&leaf, &world.manager);
    assert!(!container.has_tag(&leaf));
    assert!(container.has_tag(&middle));
    assert!(container.has_tag(&root));
    assert_eq!(&container.get()[0..3], &[1, 1, 0]);
}

#[test]
fn remove_tag_is_skipped_while_a_descendant_is_held() {
    let mut world = world();
    let leaf = register(&mut world, "A.B.C");
    let root = register(&mut world, "A");
    let mut container = GameplayTagContainer::new();
    container.add_tag(&leaf, &world.manager);
    container.remove_tag(&root, &world.manager);
    assert!(container.has_tag(&root));
    assert!(container.has_tag(&leaf));
    assert_eq!(&container.get()[0..3], &[1, 1, 1]);
}

#[test]
fn remove_tag_that_is_not_held_changes_nothing() {
    let mut world = world();
    let leaf = register(&mut world, "A.B");
    let other = register(&mut world, "C");
    let mut container = GameplayTagContainer::default();
    container.add_tag(&leaf, &world.manager);
    container.remove_tag(&other, &world.manager);
    container.remove_tag(&GameplayTag::new(400), &world.manager);
    assert_eq!(&container.get()[0..3], &[1, 1, 0]);
    container.remove_tag(&leaf, &world.manager);
    assert_eq!(&container.get()[0..3], &[0, 0, 0]);
    assert_eq!(container.get_bits()[0], 0);
    container.remove_tag(&leaf, &world.manager);
    assert_eq!(&container.get()[0..3], &[0, 0, 0]);
}

#[test]
fn add_tag_of_an_unregistered_tag_changes_nothing() {
    let world = world();
    let mut container = GameplayTagContainer::new();
    container.add_tag(&GameplayTag::new(3), &world.manager);
    assert!(!container.has_tag(&GameplayTag::new(3)));
    assert!(container.get().iter().all(|count| *count == 0));
}

#[test]
fn counts_follow_every_holder() {
    let mut world = world();
    let fire = register(&mut world, "Ability.Fireball");
    let heal = register(&mut world, "Ability.Heal");
    let ability = register(&mut world, "Ability");
    let mut container = GameplayTagContainer::new();
    container.add_tags(&[fire, heal, fire], &world.manager);
    assert_eq!(&container.get()[0..3], &[3, 2, 1]);
    container.remove_tags(&[fire, ability, heal], &world.manager);
    assert_eq!(&container.get()[0..3], &[1, 1, 0]);
    assert!(container.has_tag(&ability));
    assert!(!container.has_tag(&heal));
}

#[test]
fn counts_stop_at_the_largest_value() {
    let mut world = world();
    let tag = register(&mut world, "Top");
    let mut container = GameplayTagContainer::new();
    for _ in 0..65540u32 {
        container.add_tag(&tag, &world.manager);
    }
    assert_eq!(container.get()[0], u16::MAX);
    container.remove_tag(&tag, &world.manager);
    assert_eq!(container.get()[0], u16::MAX - 1);
}

#[test]
fn has_all_and_has_any_test_the_bitset() {
    let mut world = world();
    let mut tags = Vec::new();
    for k in 0..130 {
        tags.push(register(&mut world, &format!("Tag{}", k)));
    }
    let mut container = GameplayTagContainer::new();
    container.add_tags(&[tags[1], tags[64], tags[129]], &world.manager);
    assert!(container.has_all(&[]));
    assert!(!container.has_any(&[]));
    assert!(container.has_all(&[tags[1], tags[129]]));
    assert!(container.has_all(&[tags[64], tags[64]]));
    assert!(!container.has_all(&[tags[1], tags[2]]));
    assert!(!container.has_all(&[tags[128]]));
    assert!(container.has_any(&[tags[0], tags[129]]));
    assert!(container.has_any(&[tags[64]]));
    assert!(!container.has_any(&[tags[0], tags[63], tags[65], tags[128]]));
    assert!(!container.has_any(&[GameplayTag::new(511)]));
}

#[test]
fn active_descendants_are_found_at_any_depth() {
    let mut world = world();
    let leaf = register(&mut world, "A.B.C");
    let root = register(&mut world, "A");
    let middle = register(&mut world, "A.B");
    let side = register(&mut world, "A.D");
    let other = register(&mut world, "E");
    let mut counts = vec![0u16; MAX_TAG_COUNTS];
    assert!(!world.manager.check_has_active_descendants(root.get_bit_index_u16(), &counts));
    counts[leaf.get_bit_index_usize()] = 1;
    assert!(world.manager.check_has_active_descendants(root.get_bit_index_u16(), &counts));
    assert!(world.manager.check_has_active_descendants(middle.get_bit_index_u16(), &counts));
    assert!(!world.manager.check_has_active_descendants(leaf.get_bit_index_u16(), &counts));
    assert!(!world.manager.check_has_active_descendants(side.get_bit_index_u16(), &counts));
    assert!(!world.manager.check_has_active_descendants(other.get_bit_index_u16(), &counts));
    assert!(!world.manager.check_has_active_descendants(300, &counts));
    counts[leaf.get_bit_index_usize()] = 0;
    counts[root.get_bit_index_usize()] = 5;
    assert!(!world.manager.check_has_active_descendants(root.get_bit_index_u16(), &counts));
    assert!(!world.manager.check_has_active_descendants(root.get_bit_index_u16(), &[]));
}

#[test]
fn operations_change_the_container_of_their_slot() {
    let mut world = world();
    let leaf = register(&mut world, "A.B.C");
    let root = register(&mut world, "A");
    let middle = register(&mut world, "A.B");
    let mut pool = GameplayTagContainerPool::new();
    assert_eq!(pool.allocate_container(), 0);
    assert_eq!(pool.allocate_container(), 1);
    let operations = vec![
        GameplayTagOperation { entity: 1, tags_to_add: vec![leaf, middle], tags_to_remove: vec![leaf] },
        GameplayTagOperation { entity: 7, tags_to_add: vec![leaf], tags_to_remove: vec![] },
        GameplayTagOperation { entity: 0, tags_to_add: vec![leaf], tags_to_remove: vec![root] },
        GameplayTagOperation { entity: 1, tags_to_add: vec![], tags_to_remove: vec![middle, root] },
    ];
    process_tag_operations(&world.manager, &mut pool, &operations);
    assert_eq!(&pool.get_ref_counts(0)[0..3], &[1, 1, 1]);
    assert_eq!(&pool.get_ref_counts(1)[0..3], &[0, 0, 0]);
    assert!(pool.get_container(0).has_tag(&root));
    assert!(!pool.get_container(1).has_tag(&root));
    assert_eq!(pool.len(), 2);
}

#[test]
fn pool_hands_out_the_slot_given_back_last() {
    let mut world = world();
    let tag = register(&mut world, "A");
    let mut pool = GameplayTagContainerPool::default();
    assert_eq!(pool.allocate_container(), 0);
    assert_eq!(pool.allocate_container(), 1);
    assert_eq!(pool.allocate_container(), 2);
    pool.change_tags(1, &[tag, tag], &[], &world.manager);
    pool.change_tags(2, &[tag], &[tag], &world.manager);
    assert_eq!(pool.get_ref_counts(1)[0], 2);
    assert_eq!(pool.get_ref_counts(2)[0], 0);
    pool.free_container(1);
    pool.free_container(0);
    assert_eq!(pool.get_ref_counts(1)[0], 2);
    assert_eq!(pool.allocate_container(), 0);
    assert_eq!(pool.allocate_container(), 1);
    assert_eq!(pool.get_ref_counts(1)[0], 0);
    assert_eq!(pool.allocate_container(), 3);
    assert_eq!(pool.len(), 4);
}
