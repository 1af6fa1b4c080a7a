use vstd::prelude::*;
use crate::gameplay_tags::gameplay_tag_bits::MAX_TAG_COUNTS;
use crate::gameplay_tags::gameplay_tag::GameplayTag;
use crate::gameplay_tags::gameplay_tag_container::{
    counts_after_adds, counts_after_removes, GameplayTagContainer,
};
use crate::gameplay_tags::gameplay_tag_manager::GameplayTagManager;

verus! {

/// What a pool holds: for each slot the counts of the container in it, and
/// the slots that were given back, in the order in which they were.
pub struct ContainerPoolView {
    pub slots: Seq<Seq<u16>>,
    pub free: Seq<usize>,
}

/// The counts of a container that holds no tag.
pub open spec fn no_counts() -> Seq<u16> {
    Seq::new(MAX_TAG_COUNTS as nat, |index: int| 0u16)
}

/// The tag containers of all actors, by slot. A slot that was given back is
/// handed out again, with a fresh container, before a new one is made.
pub struct GameplayTagContainerPool {
    container_pool: Vec<GameplayTagContainer>,
    pool_free_list: Vec<usize>,
}

impl View for GameplayTagContainerPool {
    type V = ContainerPoolView;

    closed spec fn view(&self) -> ContainerPoolView {
        ContainerPoolView {
            slots: Seq::new(
                self.container_pool.len() as nat,
                |slot: int| self.container_pool[slot].counts(),
            ),
            free: self.pool_free_list@,
        }
    }
}

impl GameplayTagContainerPool {
    /// Every container is well formed, and every slot that was given back is
    /// a slot of the pool.
    pub closed spec fn wf(&self) -> bool {
        &&& forall|slot: int|
            0 <= slot < self.container_pool.len() ==> (#[trigger] self.container_pool[slot]).wf()
        &&& forall|k: int|
            0 <= k < self.pool_free_list.len() ==> (#[trigger] self.pool_free_list[k])
                < self.container_pool.len()
    }

    /// A well-formed pool has the counts of every bit position in every slot.
    pub proof fn lemma_wf_slots(&self)
        requires
            self.wf(),
        ensures
            forall|slot: int|
                0 <= slot < self@.slots.len() ==> (#[trigger] self@.slots[slot]).len()
                    == MAX_TAG_COUNTS,
            forall|k: int| 0 <= k < self@.free.len() ==> (#[trigger] self@.free[k]) < self@.slots.len(),
    {
        assert forall|slot: int| 0 <= slot < self@.slots.len() implies (#[trigger] self@.slots[slot]).len()
            == MAX_TAG_COUNTS by {
            assert(self.container_pool[slot].wf());
        }
    }

    /// A pool without slots.
    pub fn new() -> (pool: Self)
        ensures
            pool.wf(),
            pool@.slots.len() == 0,
            pool@.free.len() == 0,
    {
        Self { container_pool: Vec::new(), pool_free_list: Vec::new() }
    }

    /// How many slots the pool has.
    pub fn len(&self) -> (count: usize)
        ensures
            count == self@.slots.len(),
    {
        self.container_pool.len()
    }

    /// Hands out a slot with a container that holds no tag: the slot that was
    /// given back last, or else a new one behind the others.
    pub fn allocate_container(&mut self) -> (index: usize)
        requires
            old(self).wf(),
        ensures
            final(self).wf(),
            old(self)@.free.len() > 0 ==> {
                &&& index == old(self)@.free.last()
                &&& final(self)@.free == old(self)@.free.drop_last()
                &&& final(self)@.slots == old(self)@.slots.update(index as int, no_counts())
            },
            old(self)@.free.len() == 0 ==> {
                &&& index == old(self)@.slots.len()
                &&& final(self)@.free == old(self)@.free
                &&& final(self)@.slots == old(self)@.slots.push(no_counts())
            },
    {
        let fresh = GameplayTagContainer::new();
        proof {
            assert(fresh.counts() =~= no_counts());
        }
        if let Some(index) = self.pool_free_list.pop() {
            proof {
                assert(index == old(self).pool_free_list[old(self).pool_free_list.len() - 1]);
            }
            self.container_pool[index] = fresh;
            proof {
                assert(self@.slots =~= old(self)@.slots.update(index as int, no_counts()));
                assert forall|k: int| 0 <= k < self.pool_free_list.len() implies (#[trigger] self.pool_free_list[k])
                    < self.container_pool.len() by {
                    assert(self.pool_free_list[k] == old(self).pool_free_list[k]);
                }
            }
            index
        } else {
            let index = self.container_pool.len();
            self.container_pool.push(fresh);
            proof {
                assert(self@.slots =~= old(self)@.slots.push(no_counts()));
            }
            index
        }
    }

    /// Gives the slot `index` back. Its container stays as it is until the
    /// slot is handed out again.
    pub fn free_container(&mut self, index: usize)
        requires
            old(self).wf(),
            index < old(self)@.slots.len(),
        ensures
            final(self).wf(),
            final(self)@.slots == old(self)@.slots,
            final(self)@.free == old(self)@.free.push(index),
    {
        self.pool_free_list.push(index);
        proof {
            assert(self@.slots =~= old(self)@.slots);
        }
    }

    /// The counts of the container in the slot `index`.
    pub fn get_ref_counts(&self, index: usize) -> (ref_counts: &[u16])
        requires
            index < self@.slots.len(),
        ensures
            ref_counts@ == self@.slots[index as int],
    {
        self.container_pool[index].get()
    }

    /// The container in the slot `index`.
    pub fn get_container(&self, index: usize) -> (container: &GameplayTagContainer)
        requires
            self.wf(),
            index < self@.slots.len(),
        ensures
            container.wf(),
            container.counts() == self@.slots[index as int],
    {
        &self.container_pool[index]
    }

    /// Adds the tags of `tags_to_add` to the container in the slot `index`,
    /// first to last, and then removes those of `tags_to_remove`, first to
    /// last.
    pub fn change_tags(
        &mut self,
        index: usize,
        tags_to_add: &[GameplayTag],
        tags_to_remove: &[GameplayTag],
        manager: &GameplayTagManager,
    )
        requires
            old(self).wf(),
            manager.wf(),
            index < old(self)@.slots.len(),
        ensures
            final(self).wf(),
            final(self)@.free == old(self)@.free,
            final(self)@.slots == old(self)@.slots.update(
                index as int,
                counts_after_removes(
                    counts_after_adds(old(self)@.slots[index as int], manager.parents(), tags_to_add@),
                    manager.parents(),
                    tags_to_remove@,
                ),
            ),
    {
        let container = &mut self.container_pool[index];
        container.add_tags(tags_to_add, manager);
        container.remove_tags(tags_to_remove, manager);
        proof {
            assert(self@.slots =~= old(self)@.slots.update(
                index as int,
                counts_after_removes(
                    counts_after_adds(old(self)@.slots[index as int], manager.parents(), tags_to_add@),
                    manager.parents(),
                    tags_to_remove@,
                ),
            ));
            assert forall|slot: int| 0 <= slot < self.container_pool.len() implies (#[trigger] self.container_pool[slot]).wf() by {
                if slot != index {
                    assert(self.container_pool[slot] == old(self).container_pool[slot]);
                }
            }
        }
    }
}

impl Default for GameplayTagContainerPool {
    fn default() -> (pool: Self)
        ensures
            pool.wf(),
            pool@.slots.len() == 0,
            pool@.free.len() == 0,
    {
        Self::new()
    }
}

} // verus!
