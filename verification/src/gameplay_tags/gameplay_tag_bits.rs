use vstd::prelude::*;
use crate::gameplay_tags::gameplay_tag::GameplayTag;
use crate::settings::GAMEPLAY_TAG_SIZE;

verus! {

/// A block has two to this power bits.
pub const BLOCK_SIZE_EXPONENT: usize = 6;

/// The number of bits in one block.
pub const TAG_BITS_PER_BLOCK: usize = 64;

/// The number of bit positions in a bitset.
pub const MAX_TAG_COUNTS: usize = GAMEPLAY_TAG_SIZE;

/// The number of blocks that hold all bit positions.
pub const MAX_TAG_BLOCKS: usize = (MAX_TAG_COUNTS + TAG_BITS_PER_BLOCK - 1) / TAG_BITS_PER_BLOCK;

/// One bit for every tag that can be registered, in blocks of 64.
pub type GameplayTagBits = [u64; MAX_TAG_BLOCKS];

/// Whether bit `offset` of `word` is on.
pub open spec fn word_has_bit(word: u64, offset: u64) -> bool {
    (word >> offset) & 1 == 1
}

/// Whether the bit at position `index` is on in `bits`.
pub open spec fn bits_contain(bits: GameplayTagBits, index: int) -> bool {
    0 <= index < MAX_TAG_COUNTS && word_has_bit(bits@[index / 64], (index % 64) as u64)
}

/// The bit positions that are on in `bits`.
pub open spec fn bit_set(bits: GameplayTagBits) -> Set<int> {
    Set::new(|index: int| bits_contain(bits, index))
}

/// The bit positions of a list of tags.
pub open spec fn tag_indices(tags: Seq<GameplayTag>) -> Set<int> {
    Set::new(|index: int| exists|k: int| 0 <= k < tags.len() && #[trigger] tags[k].bit_index() == index)
}

/// Every tag of the list has a bit position inside the bitset.
pub open spec fn tags_in_range(tags: Seq<GameplayTag>) -> bool {
    forall|k: int| 0 <= k < tags.len() ==> (#[trigger] tags[k]).bit_index() < MAX_TAG_COUNTS
}

/// Shifting and masking an index give its block and its offset in the block.
pub proof fn lemma_block_and_offset(index: usize)
    by (bit_vector)
    ensures
        index >> 6 == index / 64,
        index & 63 == index % 64,
{
}

/// Or-ing one bit into a word turns that bit on and leaves the others.
pub proof fn lemma_word_with_bit(word: u64, k: u64, j: u64)
    by (bit_vector)
    requires
        k < 64,
        j < 64,
    ensures
        word_has_bit(word | (1u64 << k), j) == (word_has_bit(word, j) || j == k),
{
}

/// No bit is on in the word zero.
pub proof fn lemma_empty_word(j: u64)
    by (bit_vector)
    requires
        j < 64,
    ensures
        !word_has_bit(0, j),
{
}

/// A bit is on in the or of two words where it is on in one of them.
pub proof fn lemma_word_join(left: u64, right: u64, j: u64)
    by (bit_vector)
    requires
        j < 64,
    ensures
        word_has_bit(left | right, j) == (word_has_bit(left, j) || word_has_bit(right, j)),
{
}

/// And-ing a word with the complement of another turns off the bits of the
/// other and leaves the rest.
pub proof fn lemma_word_drop(word: u64, dropped: u64, j: u64)
    by (bit_vector)
    requires
        j < 64,
    ensures
        word_has_bit(word & !dropped, j) == (word_has_bit(word, j) && !word_has_bit(dropped, j)),
{
}

/// Xor-ing a bit that is on out of a word makes the word smaller, turns
/// that bit off and leaves the others.
pub proof fn lemma_word_without_bit(word: u64, k: u64, j: u64)
    by (bit_vector)
    requires
        k < 64,
        j < 64,
        word_has_bit(word, k),
    ensures
        word ^ (1u64 << k) < word,
        word_has_bit(word ^ (1u64 << k), j) == (word_has_bit(word, j) && j != k),
{
}

/// And-ing a word with one bit is not zero exactly where that bit is on.
pub proof fn lemma_word_test(word: u64, k: u64)
    by (bit_vector)
    requires
        k < 64,
    ensures
        (word & (1u64 << k) != 0) == word_has_bit(word, k),
{
}

/// A word that covers another has every bit of the other.
pub proof fn lemma_word_covered(word: u64, wanted: u64, j: u64)
    by (bit_vector)
    requires
        j < 64,
        word & wanted == wanted,
        word_has_bit(wanted, j),
    ensures
        word_has_bit(word, j),
{
}

/// A word that does not cover another lacks some bit of the other.
pub proof fn lemma_word_not_covered(word: u64, wanted: u64)
    by (bit_vector)
    requires
        word & wanted != wanted,
    ensures
        wanted & !word != 0,
{
}

/// Two words with a bit in common have an and that is not zero.
pub proof fn lemma_word_shared(word: u64, wanted: u64, j: u64)
    by (bit_vector)
    requires
        j < 64,
        word_has_bit(word, j),
        word_has_bit(wanted, j),
    ensures
        word & wanted != 0,
{
}

/// A bit is on in the and of two words where it is on in both.
pub proof fn lemma_word_both(left: u64, right: u64, j: u64)
    by (bit_vector)
    requires
        j < 64,
    ensures
        word_has_bit(left & right, j) == (word_has_bit(left, j) && word_has_bit(right, j)),
{
}

/// The position of a bit that is on in a word that is not zero.
pub fn lowest_bit(word: u64) -> (offset: u32)
    requires
        word != 0,
    ensures
        offset < 64,
        word_has_bit(word, offset as u64),
{
    broadcast use vstd::std_specs::bits::axiom_u64_trailing_zeros;

    word.trailing_zeros()
}

/// The position of a bit that is on in a word that is not zero.
pub proof fn lowest_bit_of(word: u64) -> (offset: u32)
    requires
        word != 0,
    ensures
        offset < 64,
        word_has_bit(word, offset as u64),
{
    broadcast use vstd::std_specs::bits::axiom_u64_trailing_zeros;

    vstd::std_specs::bits::u64_trailing_zeros(word)
}

/// Position `block * 64 + offset` lies in block `block` at offset `offset`.
pub proof fn lemma_position(block: int, offset: int)
    requires
        0 <= block < MAX_TAG_BLOCKS,
        0 <= offset < 64,
    ensures
        0 <= block * 64 + offset < MAX_TAG_COUNTS,
        (block * 64 + offset) / 64 == block,
        (block * 64 + offset) % 64 == offset,
{
}

/// A bitset with no bit on.
pub fn empty_tag_bits() -> (bits: GameplayTagBits)
    ensures
        bit_set(bits) == Set::<int>::empty(),
        forall|index: int| !#[trigger] bits_contain(bits, index),
{
    let bits: GameplayTagBits = [0u64; MAX_TAG_BLOCKS];
    proof {
        assert forall|index: int| !bits_contain(bits, index) by {
            if 0 <= index < MAX_TAG_COUNTS {
                lemma_empty_word((index % 64) as u64);
            }
        }
        assert(bit_set(bits) =~= Set::<int>::empty());
    }
    bits
}

/// Turns on the bit of `tag`; every other bit stays as it was.
pub fn add_bit_with_tag(bits: &mut GameplayTagBits, tag: &GameplayTag)
    requires
        tag.bit_index() < MAX_TAG_COUNTS,
    ensures
        bit_set(*final(bits)) == bit_set(*old(bits)).insert(tag.bit_index() as int),
{
    let tag_bit_index = tag.get_bit_index_usize();
    let block = tag_bit_index >> BLOCK_SIZE_EXPONENT;
    let bit = tag_bit_index & (TAG_BITS_PER_BLOCK - 1);
    proof {
        lemma_block_and_offset(tag_bit_index);
    }
    let word = bits[block];
    bits[block] = word | (1u64 << (bit as u64));
    proof {
        assert forall|index: int| bits_contain(*bits, index) == (bits_contain(*old(bits), index)
            || index == tag_bit_index) by {
            if 0 <= index < MAX_TAG_COUNTS {
                if index / 64 == block {
                    lemma_word_with_bit(word, bit as u64, (index % 64) as u64);
                }
            }
        }
        assert(bit_set(*bits) =~= bit_set(*old(bits)).insert(tag.bit_index() as int));
    }
}

/// The bitset in which exactly the bits of `tags` are on.
pub fn tag_bits_from_tags(tags: &[GameplayTag]) -> (bits: GameplayTagBits)
    requires
        tags_in_range(tags@),
    ensures
        bit_set(bits) == tag_indices(tags@),
{
    let mut result = empty_tag_bits();
    let mut k: usize = 0;
    while k < tags.len()
        invariant
            k <= tags.len(),
            tags_in_range(tags@),
            bit_set(result) == tag_indices(tags@.take(k as int)),
        decreases tags.len() - k,
    {
        add_bit_with_tag(&mut result, &tags[k]);
        proof {
            let shorter = tags@.take(k as int);
            let longer = tags@.take(k + 1);
            assert forall|index: int| tag_indices(longer).contains(index) == (tag_indices(
                shorter,
            ).contains(index) || index == tags@[k as int].bit_index()) by {
                if tag_indices(longer).contains(index) {
                    let w = choose|w: int| 0 <= w < longer.len() && #[trigger] longer[w].bit_index() == index;
                    if w < k {
                        assert(shorter[w].bit_index() == index);
                    }
                }
                if tag_indices(shorter).contains(index) {
                    let w = choose|w: int| 0 <= w < shorter.len() && #[trigger] shorter[w].bit_index() == index;
                    assert(longer[w].bit_index() == index);
                }
                if index == tags@[k as int].bit_index() {
                    assert(longer[k as int].bit_index() == index);
                }
            }
            assert(bit_set(result) =~= tag_indices(longer));
        }
        k += 1;
    }
    proof {
        assert(tags@.take(tags.len() as int) =~= tags@);
    }
    result
}

} // verus!
