use vstd::prelude::*;
use crate::gameplay_tags::gameplay_tag::GameplayTag;
use crate::gameplay_tags::gameplay_tag_container::{counts_after_adds, counts_after_removes};
use crate::gameplay_tags::gameplay_tag_container_pool::GameplayTagContainerPool;
use crate::gameplay_tags::gameplay_tag_manager::GameplayTagManager;

verus! {

/// A request to change the tags of one actor: the slot of the actor's
/// container in the pool, the tags to add, and the tags to remove after that.
pub struct GameplayTagOperation {
    pub entity: usize,
    pub tags_to_add: Vec<GameplayTag>,
    pub tags_to_remove: Vec<GameplayTag>,
}

/// The counts of the container in `slot` after `operation`: one for another
/// slot leaves them alone; one for this slot adds its tags, first to last,
/// and then removes its tags, first to last.
pub open spec fn counts_after_operation(
    counts: Seq<u16>,
    parents: Seq<Option<u16>>,
    operation: GameplayTagOperation,
    slot: int,
) -> Seq<u16> {
    if operation.entity == slot {
        counts_after_removes(
            counts_after_adds(counts, parents, operation.tags_to_add@),
            parents,
            operation.tags_to_remove@,
        )
    } else {
        counts
    }
}

/// The counts of the container in `slot` after each operation of
/// `operations`, first to last.
pub open spec fn counts_after_operations(
    counts: Seq<u16>,
    parents: Seq<Option<u16>>,
    operations: Seq<GameplayTagOperation>,
    slot: int,
) -> Seq<u16>
    decreases operations.len(),
{
    if operations.len() == 0 {
        counts
    } else {
        counts_after_operation(
            counts_after_operations(counts, parents, operations.drop_last(), slot),
            parents,
            operations.last(),
            slot,
        )
    }
}

/// Carries out `operations`, first to last, on the containers of
/// `container_pool`. An operation for a slot that the pool does not have is
/// passed over.
pub fn process_tag_operations(
    manager: &GameplayTagManager,
    container_pool: &mut GameplayTagContainerPool,
    operations: &[GameplayTagOperation],
)
    requires
        manager.wf(),
        old(container_pool).wf(),
    ensures
        final(container_pool).wf(),
        final(container_pool)@.free == old(container_pool)@.free,
        final(container_pool)@.slots.len() == old(container_pool)@.slots.len(),
        forall|slot: int|
            0 <= slot < old(container_pool)@.slots.len() ==> #[trigger] final(container_pool)@.slots[slot]
                == counts_after_operations(
                old(container_pool)@.slots[slot],
                manager.parents(),
                operations@,
                slot,
            ),
{
    let mut k: usize = 0;
    while k < operations.len()
        invariant
            k <= operations.len(),
            manager.wf(),
            container_pool.wf(),
            container_pool@.free == old(container_pool)@.free,
            container_pool@.slots.len() == old(container_pool)@.slots.len(),
            forall|slot: int|
                0 <= slot < container_pool@.slots.len() ==> #[trigger] container_pool@.slots[slot]
                    == counts_after_operations(
                    old(container_pool)@.slots[slot],
                    manager.parents(),
                    operations@.take(k as int),
                    slot,
                ),
        decreases operations.len() - k,
    {
        let operation = &operations[k];
        let ghost before = container_pool@;
        proof {
            assert(operations@.take(k + 1).drop_last() =~= operations@.take(k as int));
            assert(operations@.take(k + 1).last() == operations@[k as int]);
        }
        if operation.entity < container_pool.len() {
            container_pool.change_tags(
                operation.entity,
                operation.tags_to_add.as_slice(),
                operation.tags_to_remove.as_slice(),
                manager,
            );
        }
        proof {
            assert forall|slot: int|
                0 <= slot < container_pool@.slots.len() implies #[trigger] container_pool@.slots[slot]
                == counts_after_operations(
                old(container_pool)@.slots[slot],
                manager.parents(),
                operations@.take(k + 1),
                slot,
            ) by {
                assert(before.slots[slot] == counts_after_operations(
                    old(container_pool)@.slots[slot],
                    manager.parents(),
                    operations@.take(k as int),
                    slot,
                ));
            }
        }
        k += 1;
    }
    proof {
        assert(operations@.take(operations@.len() as int) =~= operations@);
    }
}

} // verus!
