use vstd::prelude::*;
use crate::gameplay_tags::gameplay_tag::GameplayTag;
use crate::gameplay_tags::gameplay_tag_bits::{
    bits_contain, bit_set, empty_tag_bits, lemma_block_and_offset, lemma_position,
    lemma_word_both, lemma_word_covered, lemma_word_drop, lemma_word_join,
    lemma_word_not_covered, lemma_word_shared, lemma_word_test, lemma_word_with_bit,
    lemma_word_without_bit, lowest_bit, lowest_bit_of, tag_bits_from_tags, tag_indices, tags_in_range,
    word_has_bit, GameplayTagBits, BLOCK_SIZE_EXPONENT, MAX_TAG_BLOCKS, MAX_TAG_COUNTS,
    TAG_BITS_PER_BLOCK,
};
use crate::gameplay_tags::gameplay_tag_manager::{
    has_active_descendants, is_active, is_ancestor_or_self, GameplayTagManager,
};

verus! {

/// A count after one more holder: it stops at the largest value.
pub open spec fn raised(count: u16) -> u16 {
    if count == u16::MAX {
        count
    } else {
        (count + 1) as u16
    }
}

/// A count after one holder less: it stops at zero.
pub open spec fn lowered(count: u16) -> u16 {
    if count == 0 {
        count
    } else {
        (count - 1) as u16
    }
}

/// The counts after `tag` was added: the count of the tag and of each of its
/// ancestors is raised.
pub open spec fn counts_after_add(counts: Seq<u16>, parents: Seq<Option<u16>>, tag: int) -> Seq<
    u16,
> {
    Seq::new(
        counts.len(),
        |index: int|
            if is_ancestor_or_self(parents, index, tag) {
                raised(counts[index])
            } else {
                counts[index]
            },
    )
}

/// Whether removing `tag` changes anything: the tag must be held, and no tag
/// below it may be held.
pub open spec fn removal_applies(counts: Seq<u16>, parents: Seq<Option<u16>>, tag: int) -> bool {
    is_active(counts, tag) && !has_active_descendants(parents, tag, counts)
}

/// The counts after `tag` was removed: where the removal applies, the count of
/// the tag and of each of its ancestors is lowered.
pub open spec fn counts_after_remove(
    counts: Seq<u16>,
    parents: Seq<Option<u16>>,
    tag: int,
) -> Seq<u16> {
    if removal_applies(counts, parents, tag) {
        Seq::new(
            counts.len(),
            |index: int|
                if is_ancestor_or_self(parents, index, tag) {
                    lowered(counts[index])
                } else {
                    counts[index]
                },
        )
    } else {
        counts
    }
}

/// The counts after each tag of `tags` was added, first to last.
pub open spec fn counts_after_adds(
    counts: Seq<u16>,
    parents: Seq<Option<u16>>,
    tags: Seq<GameplayTag>,
) -> Seq<u16>
    decreases tags.len(),
{
    if tags.len() == 0 {
        counts
    } else {
        counts_after_add(
            counts_after_adds(counts, parents, tags.drop_last()),
            parents,
            tags.last().bit_index() as int,
        )
    }
}

/// The counts after each tag of `tags` was removed, first to last.
pub open spec fn counts_after_removes(
    counts: Seq<u16>,
    parents: Seq<Option<u16>>,
    tags: Seq<GameplayTag>,
) -> Seq<u16>
    decreases tags.len(),
{
    if tags.len() == 0 {
        counts
    } else {
        counts_after_remove(
            counts_after_removes(counts, parents, tags.drop_last()),
            parents,
            tags.last().bit_index() as int,
        )
    }
}

/// Raises the count at every position whose bit is on in `marked`.
fn raise_counts(ref_counts: &mut Vec<u16>, marked: &GameplayTagBits)
    requires
        old(ref_counts).len() == MAX_TAG_COUNTS,
    ensures
        final(ref_counts).len() == MAX_TAG_COUNTS,
        forall|index: int|
            0 <= index < MAX_TAG_COUNTS ==> #[trigger] final(ref_counts)[index] == (if bits_contain(
                *marked,
                index,
            ) {
                raised(old(ref_counts)[index])
            } else {
                old(ref_counts)[index]
            }),
{
    let mut block_index: usize = 0;
    while block_index < MAX_TAG_BLOCKS
        invariant
            block_index <= MAX_TAG_BLOCKS,
            ref_counts.len() == MAX_TAG_COUNTS,
            forall|index: int|
                0 <= index < MAX_TAG_COUNTS ==> #[trigger] ref_counts[index] == (if bits_contain(
                    *marked,
                    index,
                ) && index < block_index * 64 {
                    raised(old(ref_counts)[index])
                } else {
                    old(ref_counts)[index]
                }),
        decreases MAX_TAG_BLOCKS - block_index,
    {
        let block_bits = marked[block_index];
        let base_index = block_index * TAG_BITS_PER_BLOCK;
        let mut current_block = block_bits;
        while current_block != 0
            invariant
                block_index < MAX_TAG_BLOCKS,
                base_index == block_index * 64,
                block_bits == marked@[block_index as int],
                ref_counts.len() == MAX_TAG_COUNTS,
                forall|j: u64| j < 64 && word_has_bit(current_block, j) ==> word_has_bit(block_bits, j),
                forall|index: int|
                    0 <= index < MAX_TAG_COUNTS ==> #[trigger] ref_counts[index] == (
                    if bits_contain(*marked, index) && (index < block_index * 64 || (index / 64
                        == block_index && !word_has_bit(current_block, (index % 64) as u64))) {
                        raised(old(ref_counts)[index])
                    } else {
                        old(ref_counts)[index]
                    }),
            decreases current_block,
        {
            let bit_offset = lowest_bit(current_block);
            let index_usize = base_index + bit_offset as usize;
            let ghost before = ref_counts@;
            let ghost previous = current_block;
            proof {
                lemma_position(block_index as int, bit_offset as int);
            }
            let count = ref_counts[index_usize];
            ref_counts[index_usize] = count.saturating_add(1);
            current_block ^= 1u64 << (bit_offset as u64);
            proof {
                assert forall|j: u64| j < 64 && word_has_bit(current_block, j) implies word_has_bit(
                    block_bits,
                    j,
                ) by {
                    lemma_word_without_bit(previous, bit_offset as u64, j);
                }
                lemma_word_without_bit(previous, bit_offset as u64, 0);
                assert forall|index: int| 0 <= index < MAX_TAG_COUNTS implies #[trigger] ref_counts[index]
                    == (if bits_contain(*marked, index) && (index < block_index * 64 || (index / 64
                    == block_index && !word_has_bit(current_block, (index % 64) as u64))) {
                    raised(old(ref_counts)[index])
                } else {
                    old(ref_counts)[index]
                }) by {
                    if index / 64 == block_index {
                        lemma_word_without_bit(previous, bit_offset as u64, (index % 64) as u64);
                    }
                    if index != index_usize {
                        assert(ref_counts[index] == before[index]);
                    }
                }
            }
        }
        proof {
            assert forall|index: int| 0 <= index < MAX_TAG_COUNTS implies #[trigger] ref_counts[index]
                == (if bits_contain(*marked, index) && index < (block_index + 1) * 64 {
                raised(old(ref_counts)[index])
            } else {
                old(ref_counts)[index]
            }) by {
                if index / 64 == block_index {
                    crate::gameplay_tags::gameplay_tag_bits::lemma_empty_word((index % 64) as u64);
                }
            }
        }
        block_index += 1;
    }
}

/// Lowers the count at every position whose bit is on in `marked`, and
/// returns the bits of those positions whose count is zero afterwards.
fn lower_counts(ref_counts: &mut Vec<u16>, marked: &GameplayTagBits) -> (emptied: GameplayTagBits)
    requires
        old(ref_counts).len() == MAX_TAG_COUNTS,
    ensures
        final(ref_counts).len() == MAX_TAG_COUNTS,
        forall|index: int|
            0 <= index < MAX_TAG_COUNTS ==> #[trigger] final(ref_counts)[index] == (if bits_contain(
                *marked,
                index,
            ) {
                lowered(old(ref_counts)[index])
            } else {
                old(ref_counts)[index]
            }),
        forall|index: int|
            0 <= index < MAX_TAG_COUNTS ==> (#[trigger] bits_contain(emptied, index) <==> bits_contain(
                *marked,
                index,
            ) && final(ref_counts)[index] == 0),
{
    let mut bits_to_clear = empty_tag_bits();
    let mut block_index: usize = 0;
    while block_index < MAX_TAG_BLOCKS
        invariant
            block_index <= MAX_TAG_BLOCKS,
            ref_counts.len() == MAX_TAG_COUNTS,
            forall|index: int|
                0 <= index < MAX_TAG_COUNTS ==> #[trigger] ref_counts[index] == (if bits_contain(
                    *marked,
                    index,
                ) && index < block_index * 64 {
                    lowered(old(ref_counts)[index])
                } else {
                    old(ref_counts)[index]
                }),
            forall|index: int|
                0 <= index < MAX_TAG_COUNTS ==> (#[trigger] bits_contain(bits_to_clear, index)
                    <==> bits_contain(*marked, index) && index < block_index * 64
                    && ref_counts[index] == 0),
        decreases MAX_TAG_BLOCKS - block_index,
    {
        let block_bits = marked[block_index];
        let base_index = block_index * TAG_BITS_PER_BLOCK;
        let mut current_block = block_bits;
        while current_block != 0
            invariant
                block_index < MAX_TAG_BLOCKS,
                base_index == block_index * 64,
                block_bits == marked@[block_index as int],
                ref_counts.len() == MAX_TAG_COUNTS,
                forall|j: u64| j < 64 && word_has_bit(current_block, j) ==> word_has_bit(block_bits, j),
                forall|index: int|
                    0 <= index < MAX_TAG_COUNTS ==> #[trigger] ref_counts[index] == (
                    if bits_contain(*marked, index) && (index < block_index * 64 || (index / 64
                        == block_index && !word_has_bit(current_block, (index % 64) as u64))) {
                        lowered(old(ref_counts)[index])
                    } else {
                        old(ref_counts)[index]
                    }),
                forall|index: int|
                    0 <= index < MAX_TAG_COUNTS ==> (#[trigger] bits_contain(bits_to_clear, index)
                        <==> bits_contain(*marked, index) && (index < block_index * 64 || (index
                        / 64 == block_index && !word_has_bit(current_block, (index % 64) as u64)))
                        && ref_counts[index] == 0),
            decreases current_block,
        {
            let bit_offset = lowest_bit(current_block);
            let index_usize = base_index + bit_offset as usize;
            let ghost before = ref_counts@;
            let ghost previous = current_block;
            let ghost cleared = bits_to_clear;
            proof {
                lemma_position(block_index as int, bit_offset as int);
            }
            let count = ref_counts[index_usize].saturating_sub(1);
            ref_counts[index_usize] = count;
            if count == 0 {
                let word = bits_to_clear[block_index];
                bits_to_clear[block_index] = word | (1u64 << (bit_offset as u64));
            }
            current_block ^= 1u64 << (bit_offset as u64);
            proof {
                assert forall|j: u64| j < 64 && word_has_bit(current_block, j) implies word_has_bit(
                    block_bits,
                    j,
                ) by {
                    lemma_word_without_bit(previous, bit_offset as u64, j);
                }
                lemma_word_without_bit(previous, bit_offset as u64, 0);
                assert forall|index: int| 0 <= index < MAX_TAG_COUNTS implies #[trigger] ref_counts[index]
                    == (if bits_contain(*marked, index) && (index < block_index * 64 || (index / 64
                    == block_index && !word_has_bit(current_block, (index % 64) as u64))) {
                    lowered(old(ref_counts)[index])
                } else {
                    old(ref_counts)[index]
                }) by {
                    if index / 64 == block_index {
                        lemma_word_without_bit(previous, bit_offset as u64, (index % 64) as u64);
                    }
                    if index != index_usize {
                        assert(ref_counts[index] == before[index]);
                    }
                }
                assert forall|index: int| 0 <= index < MAX_TAG_COUNTS implies (#[trigger] bits_contain(
                    bits_to_clear,
                    index,
                ) <==> bits_contain(*marked, index) && (index < block_index * 64 || (index / 64
                    == block_index && !word_has_bit(current_block, (index % 64) as u64)))
                    && ref_counts[index] == 0) by {
                    assert(bits_contain(cleared, index) <==> bits_contain(*marked, index) && (index
                        < block_index * 64 || (index / 64 == block_index && !word_has_bit(
                        previous,
                        (index % 64) as u64,
                    ))) && before[index] == 0);
                    if index / 64 == block_index {
                        lemma_word_without_bit(previous, bit_offset as u64, (index % 64) as u64);
                        if count == 0 {
                            lemma_word_with_bit(
                                cleared@[block_index as int],
                                bit_offset as u64,
                                (index % 64) as u64,
                            );
                        }
                    }
                    if index != index_usize {
                        assert(ref_counts[index] == before[index]);
                    }
                }
            }
        }
        proof {
            assert forall|index: int| 0 <= index < MAX_TAG_COUNTS implies #[trigger] ref_counts[index]
                == (if bits_contain(*marked, index) && index < (block_index + 1) * 64 {
                lowered(old(ref_counts)[index])
            } else {
                old(ref_counts)[index]
            }) by {
                if index / 64 == block_index {
                    crate::gameplay_tags::gameplay_tag_bits::lemma_empty_word((index % 64) as u64);
                }
            }
            assert forall|index: int| 0 <= index < MAX_TAG_COUNTS implies (#[trigger] bits_contain(
                bits_to_clear,
                index,
            ) <==> bits_contain(*marked, index) && index < (block_index + 1) * 64
                && ref_counts[index] == 0) by {
                if index / 64 == block_index {
                    crate::gameplay_tags::gameplay_tag_bits::lemma_empty_word((index % 64) as u64);
                }
            }
        }
        block_index += 1;
    }
    bits_to_clear
}

/// Turns on in `bits` every bit that is on in `added`.
fn join_bits(bits: &mut GameplayTagBits, added: &GameplayTagBits)
    ensures
        forall|index: int| #[trigger]
            bits_contain(*final(bits), index) <==> bits_contain(*old(bits), index) || bits_contain(
                *added,
                index,
            ),
{
    let mut block_index: usize = 0;
    while block_index < MAX_TAG_BLOCKS
        invariant
            block_index <= MAX_TAG_BLOCKS,
            forall|block: int|
                0 <= block < MAX_TAG_BLOCKS ==> #[trigger] bits@[block] == (if block < block_index {
                    old(bits)@[block] | added@[block]
                } else {
                    old(bits)@[block]
                }),
        decreases MAX_TAG_BLOCKS - block_index,
    {
        let word = bits[block_index];
        bits[block_index] = word | added[block_index];
        block_index += 1;
    }
    proof {
        assert forall|index: int| #[trigger]
            bits_contain(*bits, index) <==> bits_contain(*old(bits), index) || bits_contain(
                *added,
                index,
            ) by {
            if 0 <= index < MAX_TAG_COUNTS {
                lemma_word_join(old(bits)@[index / 64], added@[index / 64], (index % 64) as u64);
            }
        }
    }
}

/// Turns off in `bits` every bit that is on in `dropped`.
fn drop_bits(bits: &mut GameplayTagBits, dropped: &GameplayTagBits)
    ensures
        forall|index: int| #[trigger]
            bits_contain(*final(bits), index) <==> bits_contain(*old(bits), index) && !bits_contain(
                *dropped,
                index,
            ),
{
    let mut block_index: usize = 0;
    while block_index < MAX_TAG_BLOCKS
        invariant
            block_index <= MAX_TAG_BLOCKS,
            forall|block: int|
                0 <= block < MAX_TAG_BLOCKS ==> #[trigger] bits@[block] == (if block < block_index {
                    old(bits)@[block] & !dropped@[block]
                } else {
                    old(bits)@[block]
                }),
        decreases MAX_TAG_BLOCKS - block_index,
    {
        let word = bits[block_index];
        bits[block_index] = word & !dropped[block_index];
        block_index += 1;
    }
    proof {
        assert forall|index: int| #[trigger]
            bits_contain(*bits, index) <==> bits_contain(*old(bits), index) && !bits_contain(
                *dropped,
                index,
            ) by {
            if 0 <= index < MAX_TAG_COUNTS {
                lemma_word_drop(old(bits)@[index / 64], dropped@[index / 64], (index % 64) as u64);
            }
        }
    }
}

/// The tags one actor holds: for every tag how many times it is held, itself
/// or through a tag below it, and a bitset with the bits of those held.
pub struct GameplayTagContainer {
    tag_bits: GameplayTagBits,
    ref_counts: Vec<u16>,
}

impl GameplayTagContainer {
    /// How many times each tag is held, by bit position.
    pub closed spec fn counts(&self) -> Seq<u16> {
        self.ref_counts@
    }

    /// The bitset of the tags held.
    pub closed spec fn bits(&self) -> GameplayTagBits {
        self.tag_bits
    }

    /// There is a count for every bit position, and a bit is on exactly where
    /// the count is above zero.
    pub open spec fn wf(&self) -> bool {
        &&& self.counts().len() == MAX_TAG_COUNTS
        &&& forall|index: int|
            0 <= index < MAX_TAG_COUNTS ==> (#[trigger] bits_contain(self.bits(), index) <==> self.counts()[index]
                > 0)
    }

    /// A container that holds no tag.
    pub fn new() -> (container: Self)
        ensures
            container.wf(),
            forall|index: int| 0 <= index < MAX_TAG_COUNTS ==> #[trigger] container.counts()[index] == 0,
    {
        let mut ref_counts: Vec<u16> = Vec::new();
        let mut index: usize = 0;
        while index < MAX_TAG_COUNTS
            invariant
                index <= MAX_TAG_COUNTS,
                ref_counts.len() == index,
                forall|k: int| 0 <= k < index ==> #[trigger] ref_counts[k] == 0,
            decreases MAX_TAG_COUNTS - index,
        {
            ref_counts.push(0);
            index += 1;
        }
        let tag_bits = empty_tag_bits();
        Self { tag_bits, ref_counts }
    }

    /// How many times each tag is held, by bit position.
    pub fn get(&self) -> (ref_counts: &[u16])
        ensures
            ref_counts@ == self.counts(),
    {
        self.ref_counts.as_slice()
    }

    /// The bitset of the tags held.
    pub fn get_bits(&self) -> (bits: &GameplayTagBits)
        ensures
            *bits == self.bits(),
    {
        &self.tag_bits
    }

    /// Adds `tag`: the count of the tag and of each of its ancestors is
    /// raised and their bits are turned on. A tag that `manager` has not
    /// registered changes nothing.
    pub fn add_tag(&mut self, tag: &GameplayTag, manager: &GameplayTagManager)
        requires
            old(self).wf(),
            manager.wf(),
        ensures
            final(self).wf(),
            final(self).counts() == counts_after_add(
                old(self).counts(),
                manager.parents(),
                tag.bit_index() as int,
            ),
    {
        let ghost before = self.counts();
        let ghost parents = manager.parents();
        proof {
            manager.lemma_wf_bounds();
        }
        if let Some(inherited_bits) = manager.get_inherited_bits(tag) {
            raise_counts(&mut self.ref_counts, inherited_bits);
            join_bits(&mut self.tag_bits, inherited_bits);
            proof {
                assert forall|index: int| 0 <= index < MAX_TAG_COUNTS implies #[trigger] self.counts()[index]
                    == counts_after_add(before, parents, tag.bit_index() as int)[index] by {
                    assert(bits_contain(*inherited_bits, index) <==> is_ancestor_or_self(
                        parents,
                        index,
                        tag.bit_index() as int,
                    ));
                }
                assert forall|index: int| 0 <= index < MAX_TAG_COUNTS implies (#[trigger] bits_contain(
                    self.bits(),
                    index,
                ) <==> self.counts()[index] > 0) by {
                    assert(bits_contain(old(self).bits(), index) <==> before[index] > 0);
                }
            }
        } else {
            proof {
                assert forall|index: int| 0 <= index < MAX_TAG_COUNTS implies !is_ancestor_or_self(
                    parents,
                    index,
                    tag.bit_index() as int,
                ) by {}
            }
        }
        proof {
            assert(self.counts() =~= counts_after_add(before, parents, tag.bit_index() as int));
        }
    }

    /// Removes `tag`, unless it is not held or a tag below it is held: the
    /// count of the tag and of each of its ancestors is lowered, and the bit
    /// of every count that reaches zero is turned off.
    pub fn remove_tag(&mut self, tag: &GameplayTag, manager: &GameplayTagManager)
        requires
            old(self).wf(),
            manager.wf(),
        ensures
            final(self).wf(),
            final(self).counts() == counts_after_remove(
                old(self).counts(),
                manager.parents(),
                tag.bit_index() as int,
            ),
    {
        let ghost before = self.counts();
        let ghost parents = manager.parents();
        let tag_bit_index = tag.get_bit_index_usize();
        if tag_bit_index < self.ref_counts.len() && self.ref_counts[tag_bit_index] > 0 {
            if manager.check_has_active_descendants(
                tag.get_bit_index_u16(),
                self.ref_counts.as_slice(),
            ) {
                return ;
            }
            if let Some(inherited_bits) = manager.get_inherited_bits(tag) {
                let bits_to_clear = lower_counts(&mut self.ref_counts, inherited_bits);
                drop_bits(&mut self.tag_bits, &bits_to_clear);
                proof {
                    assert forall|index: int| 0 <= index < MAX_TAG_COUNTS implies #[trigger] self.counts()[index]
                        == counts_after_remove(before, parents, tag.bit_index() as int)[index] by {
                        assert(bits_contain(*inherited_bits, index) <==> is_ancestor_or_self(
                            parents,
                            index,
                            tag.bit_index() as int,
                        ));
                    }
                    assert forall|index: int| 0 <= index < MAX_TAG_COUNTS implies (#[trigger] bits_contain(
                        self.bits(),
                        index,
                    ) <==> self.counts()[index] > 0) by {
                        assert(bits_contain(old(self).bits(), index) <==> before[index] > 0);
                        assert(bits_contain(bits_to_clear, index) <==> bits_contain(
                            *inherited_bits,
                            index,
                        ) && self.counts()[index] == 0);
                    }
                }
            } else {
                proof {
                    assert forall|index: int| 0 <= index < MAX_TAG_COUNTS implies !is_ancestor_or_self(
                        parents,
                        index,
                        tag.bit_index() as int,
                    ) by {}
                }
            }
            proof {
                assert(self.counts() =~= counts_after_remove(
                    before,
                    parents,
                    tag.bit_index() as int,
                ));
            }
        }
    }

    /// Adds each tag of `tags`, first to last.
    pub fn add_tags(&mut self, tags: &[GameplayTag], manager: &GameplayTagManager)
        requires
            old(self).wf(),
            manager.wf(),
        ensures
            final(self).wf(),
            final(self).counts() == counts_after_adds(old(self).counts(), manager.parents(), tags@),
    {
        let mut k: usize = 0;
        while k < tags.len()
            invariant
                k <= tags.len(),
                self.wf(),
                manager.wf(),
                self.counts() == counts_after_adds(
                    old(self).counts(),
                    manager.parents(),
                    tags@.take(k as int),
                ),
            decreases tags.len() - k,
        {
            self.add_tag(&tags[k], manager);
            proof {
                assert(tags@.take(k + 1).drop_last() =~= tags@.take(k as int));
            }
            k += 1;
        }
        proof {
            assert(tags@.take(tags.len() as int) =~= tags@);
        }
    }

    /// Removes each tag of `tags`, first to last.
    pub fn remove_tags(&mut self, tags: &[GameplayTag], manager: &GameplayTagManager)
        requires
            old(self).wf(),
            manager.wf(),
        ensures
            final(self).wf(),
            final(self).counts() == counts_after_removes(
                old(self).counts(),
                manager.parents(),
                tags@,
            ),
    {
        let mut k: usize = 0;
        while k < tags.len()
            invariant
                k <= tags.len(),
                self.wf(),
                manager.wf(),
                self.counts() == counts_after_removes(
                    old(self).counts(),
                    manager.parents(),
                    tags@.take(k as int),
                ),
            decreases tags.len() - k,
        {
            self.remove_tag(&tags[k], manager);
            proof {
                assert(tags@.take(k + 1).drop_last() =~= tags@.take(k as int));
            }
            k += 1;
        }
        proof {
            assert(tags@.take(tags.len() as int) =~= tags@);
        }
    }

    /// Whether `tag` is held, itself or through a tag below it.
    pub fn has_tag(&self, tag: &GameplayTag) -> (held: bool)
        requires
            self.wf(),
            tag.bit_index() < MAX_TAG_COUNTS,
        ensures
            held == is_active(self.counts(), tag.bit_index() as int),
    {
        let tag_bit_index = tag.get_bit_index_usize();
        let block = tag_bit_index >> BLOCK_SIZE_EXPONENT;
        let bit = tag_bit_index & (TAG_BITS_PER_BLOCK - 1);
        proof {
            lemma_block_and_offset(tag_bit_index);
            lemma_word_test(self.tag_bits@[block as int], bit as u64);
            assert(bits_contain(self.bits(), tag_bit_index as int) <==> self.counts()[tag_bit_index as int]
                > 0);
        }
        (self.tag_bits[block] & (1u64 << (bit as u64))) != 0
    }

    /// Whether every tag of `tags` is held.
    pub fn has_all(&self, tags: &[GameplayTag]) -> (held: bool)
        requires
            self.wf(),
            tags_in_range(tags@),
        ensures
            held == (forall|k: int|
                0 <= k < tags@.len() ==> is_active(self.counts(), (#[trigger] tags@[k]).bit_index() as int)),
    {
        let tag_bits = tag_bits_from_tags(tags);
        let mut block_index: usize = 0;
        while block_index < MAX_TAG_BLOCKS
            invariant
                block_index <= MAX_TAG_BLOCKS,
                self.wf(),
                tags_in_range(tags@),
                bit_set(tag_bits) == tag_indices(tags@),
                forall|block: int|
                    0 <= block < block_index ==> #[trigger] self.tag_bits@[block] & tag_bits@[block]
                        == tag_bits@[block],
            decreases MAX_TAG_BLOCKS - block_index,
        {
            let mine = self.tag_bits[block_index];
            let wanted = tag_bits[block_index];
            if (mine & wanted) != wanted {
                proof {
                    lemma_word_not_covered(mine, wanted);
                    let missing = wanted & !mine;
                    let offset = lowest_bit_of(missing);
                    lemma_word_drop(wanted, mine, offset as u64);
                    lemma_position(block_index as int, offset as int);
                    let index = block_index * 64 + offset;
                    assert(bits_contain(tag_bits, index));
                    assert(bit_set(tag_bits).contains(index));
                    assert(tag_indices(tags@).contains(index));
                    let k = choose|k: int| 0 <= k < tags@.len() && #[trigger] tags@[k].bit_index() == index;
                    assert(!bits_contain(self.bits(), index));
                    assert(!is_active(self.counts(), tags@[k].bit_index() as int));
                }
                return false;
            }
            block_index += 1;
        }
        proof {
            assert forall|k: int| 0 <= k < tags@.len() implies is_active(
                self.counts(),
                (#[trigger] tags@[k]).bit_index() as int,
            ) by {
                let index = tags@[k].bit_index() as int;
                assert(tag_indices(tags@).contains(index));
                assert(bit_set(tag_bits).contains(index));
                assert(bits_contain(tag_bits, index));
                assert(self.tag_bits@[index / 64] & tag_bits@[index / 64] == tag_bits@[index / 64]);
                lemma_word_covered(
                    self.tag_bits@[index / 64],
                    tag_bits@[index / 64],
                    (index % 64) as u64,
                );
                assert(bits_contain(self.bits(), index));
            }
        }
        true
    }

    /// Whether at least one tag of `tags` is held.
    pub fn has_any(&self, tags: &[GameplayTag]) -> (held: bool)
        requires
            self.wf(),
            tags_in_range(tags@),
        ensures
            held == (exists|k: int|
                0 <= k < tags@.len() && is_active(self.counts(), (#[trigger] tags@[k]).bit_index() as int)),
    {
        let tag_bits = tag_bits_from_tags(tags);
        let mut block_index: usize = 0;
        while block_index < MAX_TAG_BLOCKS
            invariant
                block_index <= MAX_TAG_BLOCKS,
                self.wf(),
                tags_in_range(tags@),
                bit_set(tag_bits) == tag_indices(tags@),
                forall|block: int|
                    0 <= block < block_index ==> #[trigger] self.tag_bits@[block] & tag_bits@[block]
                        == 0,
            decreases MAX_TAG_BLOCKS - block_index,
        {
            let mine = self.tag_bits[block_index];
            let wanted = tag_bits[block_index];
            if (mine & wanted) != 0 {
                proof {
                    let offset = lowest_bit_of(mine & wanted);
                    lemma_word_both(mine, wanted, offset as u64);
                    lemma_position(block_index as int, offset as int);
                    let index = block_index * 64 + offset;
                    assert(bits_contain(tag_bits, index));
                    assert(bit_set(tag_bits).contains(index));
                    assert(tag_indices(tags@).contains(index));
                    let k = choose|k: int| 0 <= k < tags@.len() && #[trigger] tags@[k].bit_index() == index;
                    assert(bits_contain(self.bits(), index));
                    assert(is_active(self.counts(), tags@[k].bit_index() as int));
                }
                return true;
            }
            block_index += 1;
        }
        proof {
            assert forall|k: int| 0 <= k < tags@.len() implies !is_active(
                self.counts(),
                (#[trigger] tags@[k]).bit_index() as int,
            ) by {
                let index = tags@[k].bit_index() as int;
                assert(tag_indices(tags@).contains(index));
                assert(bit_set(tag_bits).contains(index));
                assert(bits_contain(tag_bits, index));
                assert(self.tag_bits@[index / 64] & tag_bits@[index / 64] == 0);
                if bits_contain(self.bits(), index) {
                    lemma_word_shared(
                        self.tag_bits@[index / 64],
                        tag_bits@[index / 64],
                        (index % 64) as u64,
                    );
                }
            }
        }
        false
    }
}

impl Default for GameplayTagContainer {
    fn default() -> (container: Self)
        ensures
            container.wf(),
            forall|index: int| 0 <= index < MAX_TAG_COUNTS ==> #[trigger] container.counts()[index] == 0,
    {
        Self::new()
    }
}

} // verus!
