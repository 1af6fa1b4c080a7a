use bevy_tools::{add_bit_with_tag, empty_tag_bits, tag_bits_from_tags, GameplayTag, MAX_TAG_BLOCKS};

#[test]
fn add_bit_sets_exactly_one_bit() {
    let mut bits = empty_tag_bits();
    add_bit_with_tag(&mut bits, &GameplayTag::new(65));
    let mut expected = [0u64; MAX_TAG_BLOCKS];
    expected[1] = 2;
    assert_eq!(bits, expected);
}

#[test]
fn bits_from_tags_joins_all_positions() {
    let tags = [GameplayTag::new(0), GameplayTag::new(63), GameplayTag::new(511)];
    let bits = tag_bits_from_tags(&tags);
    assert_eq!(bits[0], 1u64 | (1u64 << 63));
    assert_eq!(bits[7], 1u64 << 63);
    assert_eq!(bits[1..7], [0u64; 6]);
}
