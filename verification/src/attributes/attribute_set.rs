use vstd::prelude::*;
use crate::attributes::attribute::{Attribute, AttributeView};
use crate::attributes::attribute_aggregator::{AggregatorExecutor, TermsView};
use crate::attributes::attribute_id_manager::AttributeId;
use crate::gameplay_effects::active_gameplay_effect::ActiveEffectHandle;
use crate::modifiers::modifier::ModifierSpec;
use crate::scalar::Scalar;
use crate::settings::ATTRIBUTE_SET_SIZE;

verus! {

/// What an attribute table holds: for each slot the attribute in it, if the
/// slot was initialized.
pub type AttributeSetView<V> = Seq<Option<AttributeView<V>>>;

/// A table has a slot for every attribute that can be registered, and the
/// current value of every attribute in it is up to date.
pub open spec fn is_settled_table<V: Scalar>(table: AttributeSetView<V>) -> bool {
    &&& table.len() == ATTRIBUTE_SET_SIZE
    &&& forall|slot: int|
        0 <= slot < table.len() ==> ((#[trigger] table[slot]) matches Some(attribute)
            ==> !attribute.dirty)
}

/// Whether `after` can be the table `before` once `spec` was applied as an
/// instant change: the attribute that `spec` is for takes the change; where
/// the table has no such attribute, nothing changes.
pub open spec fn table_takes_instant<V: Scalar>(
    before: AttributeSetView<V>,
    spec: ModifierSpec<V>,
    after: AttributeSetView<V>,
) -> bool {
    let slot = spec.id.slot() as int;
    if slot < before.len() && before[slot].is_some() {
        &&& after.len() == before.len()
        &&& forall|other: int| 0 <= other < before.len() && other != slot ==> #[trigger] after[other] == before[other]
        &&& after[slot] matches Some(attribute) && before[slot].unwrap().can_take_instant(
            spec,
            attribute,
        )
    } else {
        after == before
    }
}

/// Whether `after` can be the table `before` once `spec` was applied under
/// `handle` for as long as the effect runs: the attribute that `spec` is for
/// gets the term and is recalculated; where the table has no such attribute,
/// nothing changes.
pub open spec fn table_takes_term<V: Scalar>(
    before: AttributeSetView<V>,
    spec: ModifierSpec<V>,
    handle: ActiveEffectHandle,
    after: AttributeSetView<V>,
) -> bool {
    let slot = spec.id.slot() as int;
    if slot < before.len() && before[slot].is_some() {
        &&& after.len() == before.len()
        &&& forall|other: int| 0 <= other < before.len() && other != slot ==> #[trigger] after[other] == before[other]
        &&& after[slot] matches Some(attribute) && before[slot].unwrap().with_term(
            spec,
            handle,
        ).can_refresh_to(attribute)
    } else {
        after == before
    }
}

/// Whether `after` can be the slot `before` once recalculated: an attribute
/// whose current value is out of date gets a fresh one and is up to date; one
/// that is up to date, and a slot that is not initialized, stay as they are.
pub open spec fn slot_refreshes<V: Scalar>(
    before: Option<AttributeView<V>>,
    after: Option<AttributeView<V>>,
) -> bool {
    match before {
        Some(attribute) => after matches Some(refreshed) && attribute.can_refresh_to(refreshed),
        None => after.is_none(),
    }
}

/// Whether `after` can be the table `before` once the slot `slot` was
/// recalculated: that slot is refreshed, every other slot stays as it is.
pub open spec fn table_refreshes_slot<V: Scalar>(
    before: AttributeSetView<V>,
    slot: int,
    after: AttributeSetView<V>,
) -> bool {
    &&& after.len() == before.len()
    &&& forall|other: int| 0 <= other < before.len() && other != slot ==> #[trigger] after[other] == before[other]
    &&& slot_refreshes(before[slot], after[slot])
}

/// Whether `after` can be the table `before` once every slot was
/// recalculated.
pub open spec fn table_refreshes<V: Scalar>(
    before: AttributeSetView<V>,
    after: AttributeSetView<V>,
) -> bool {
    &&& after.len() == before.len()
    &&& forall|slot: int| 0 <= slot < before.len() ==> slot_refreshes(#[trigger] before[slot], after[slot])
}

/// Recalculating a slot leaves the attribute in it up to date.
pub proof fn lemma_refreshed_slot_is_settled<V: Scalar>(
    before: Option<AttributeView<V>>,
    after: Option<AttributeView<V>>,
)
    requires
        slot_refreshes(before, after),
    ensures
        after matches Some(attribute) ==> !attribute.dirty,
        (before matches Some(attribute) ==> !attribute.dirty) ==> after == before,
{
}

/// Whether `after` can be the table `before` once everything put there under
/// `handle` was taken out: every attribute loses the terms of the handle and
/// is recalculated.
pub open spec fn table_drops_handle<V: Scalar>(
    before: AttributeSetView<V>,
    handle: ActiveEffectHandle,
    after: AttributeSetView<V>,
) -> bool {
    &&& after.len() == before.len()
    &&& forall|slot: int|
        0 <= slot < before.len() ==> match #[trigger] before[slot] {
            Some(attribute) => after[slot] matches Some(changed) && attribute.without_terms_of(
                handle,
            ).can_refresh_to(changed),
            None => after[slot].is_none(),
        }
}

/// `tables` holds the tables met while the modifiers of `specs` are applied
/// as instant changes, first to last: the table before, then the table after
/// each modifier.
pub open spec fn is_instant_trace<V: Scalar>(
    specs: Seq<ModifierSpec<V>>,
    tables: Seq<AttributeSetView<V>>,
) -> bool {
    &&& tables.len() == specs.len() + 1
    &&& forall|k: int|
        0 <= k < specs.len() ==> table_takes_instant(tables[k], specs[k], #[trigger] tables[k + 1])
}

/// Whether `after` can be the table `before` once every modifier of `specs`
/// was applied as an instant change, first to last.
pub open spec fn table_takes_instants<V: Scalar>(
    before: AttributeSetView<V>,
    specs: Seq<ModifierSpec<V>>,
    after: AttributeSetView<V>,
) -> bool {
    exists|tables: Seq<AttributeSetView<V>>| #[trigger]
        is_instant_trace(specs, tables) && tables[0] == before && tables.last() == after
}

/// `tables` holds the tables met while the modifiers of `specs` are applied
/// under `handle`, first to last: the table before, then the table after each
/// modifier.
pub open spec fn is_term_trace<V: Scalar>(
    specs: Seq<ModifierSpec<V>>,
    handle: ActiveEffectHandle,
    tables: Seq<AttributeSetView<V>>,
) -> bool {
    &&& tables.len() == specs.len() + 1
    &&& forall|k: int|
        0 <= k < specs.len() ==> table_takes_term(
            tables[k],
            specs[k],
            handle,
            #[trigger] tables[k + 1],
        )
}

/// Whether `after` can be the table `before` once every modifier of `specs`
/// was applied under `handle`, first to last.
pub open spec fn table_takes_terms<V: Scalar>(
    before: AttributeSetView<V>,
    specs: Seq<ModifierSpec<V>>,
    handle: ActiveEffectHandle,
    after: AttributeSetView<V>,
) -> bool {
    exists|tables: Seq<AttributeSetView<V>>| #[trigger]
        is_term_trace(specs, handle, tables) && tables[0] == before && tables.last() == after
}

/// The attributes of one actor, by slot.
#[verifier::reject_recursive_types(V)]
pub struct AttributeSet<V: Scalar> {
    attributes: Vec<Option<Box<Attribute<V>>>>,
}

impl<V: Scalar> View for AttributeSet<V> {
    type V = AttributeSetView<V>;

    closed spec fn view(&self) -> AttributeSetView<V> {
        Seq::new(
            self.attributes.len() as nat,
            |slot: int|
                match self.attributes[slot] {
                    Some(attribute) => Some(attribute@),
                    None => None,
                },
        )
    }
}

impl<V: Scalar> AttributeSet<V> {
    /// There is a slot for every attribute that can be registered, and the
    /// current value of every attribute is up to date.
    pub open spec fn wf(&self) -> bool {
        is_settled_table(self@)
    }

    /// A table in which no slot is initialized.
    pub fn new() -> (set: Self)
        ensures
            set.wf(),
            forall|slot: int| 0 <= slot < ATTRIBUTE_SET_SIZE ==> (#[trigger] set@[slot]).is_none(),
    {
        let mut attrs: Vec<Option<Box<Attribute<V>>>> = Vec::new();
        let mut slot: usize = 0;
        while slot < ATTRIBUTE_SET_SIZE
            invariant
                slot <= ATTRIBUTE_SET_SIZE,
                attrs.len() == slot,
                forall|k: int| 0 <= k < slot ==> (#[trigger] attrs[k]).is_none(),
            decreases ATTRIBUTE_SET_SIZE - slot,
        {
            attrs.push(None);
            slot += 1;
        }
        Self { attributes: attrs }
    }

    /// Puts a fresh attribute into the slot of `id`: with the given base
    /// value and bounds, an empty aggregator, the given combination rule or
    /// else the default one, and a current value that is up to date.
    pub fn initialize_attribute(
        &mut self,
        id: AttributeId,
        base_value: V,
        clamp_min: Option<V>,
        clamp_max: Option<V>,
        executor: Option<Box<dyn AggregatorExecutor<V>>>,
    )
        requires
            old(self).wf(),
            id.slot() < ATTRIBUTE_SET_SIZE,
        ensures
            final(self).wf(),
            forall|other: int|
                0 <= other < ATTRIBUTE_SET_SIZE && other != id.slot() ==> #[trigger] final(self)@[other]
                    == old(self)@[other],
            final(self)@[id.slot() as int] matches Some(attribute) && {
                &&& attribute.base == base_value
                &&& attribute.clamp_min == clamp_min
                &&& attribute.clamp_max == clamp_max
                &&& attribute.aggregator.terms == TermsView::<V>::emptied()
                &&& attribute.aggregator.custom_executor == executor.is_some()
                &&& attribute.can_have_current(attribute.current)
            },
    {
        let index = id.to_index();
        let mut attr = Box::new(Attribute::new());
        attr.init(base_value, clamp_min, clamp_max, executor);
        self.attributes[index] = Some(attr);
        proof {
            assert forall|other: int|
                0 <= other < ATTRIBUTE_SET_SIZE && other != id.slot() implies #[trigger] self@[other]
                == old(self)@[other] by {}
        }
    }

    /// Brings the current value of the attribute of `id` up to date: where it
    /// is out of date, it becomes what the aggregator makes of the base
    /// value, held to the bounds. An attribute that is up to date, a slot
    /// that is not initialized, and every other slot stay as they are.
    pub fn recalculate_attribute(&mut self, id: AttributeId)
        requires
            id.slot() < old(self)@.len(),
        ensures
            table_refreshes_slot(old(self)@, id.slot() as int, final(self)@),
            old(self).wf() ==> final(self).wf() && final(self)@ == old(self)@,
    {
        let index = id.to_index();
        if let Some(attr) = &mut self.attributes[index] {
            attr.recalculate();
        }
        proof {
            assert forall|other: int|
                0 <= other < old(self)@.len() && other != index implies #[trigger] self@[other]
                == old(self)@[other] by {}
            lemma_refreshed_slot_is_settled(old(self)@[index as int], self@[index as int]);
            if old(self).wf() {
                assert(self@ =~= old(self)@);
            }
        }
    }

    /// Brings the current value of every attribute up to date: each that is
    /// out of date becomes what its aggregator makes of its base value, held
    /// to its bounds. Afterwards no attribute of the table is out of date.
    pub fn recalculate_all(&mut self)
        ensures
            table_refreshes(old(self)@, final(self)@),
            forall|slot: int|
                0 <= slot < final(self)@.len() ==> ((#[trigger] final(self)@[slot]) matches Some(
                    attribute,
                ) ==> !attribute.dirty),
            old(self)@.len() == ATTRIBUTE_SET_SIZE ==> final(self).wf(),
            old(self).wf() ==> final(self)@ == old(self)@,
    {
        let mut index: usize = 0;
        while index < self.attributes.len()
            invariant
                index <= self.attributes.len(),
                self@.len() == old(self)@.len(),
                forall|slot: int|
                    index <= slot < self@.len() ==> #[trigger] self@[slot] == old(self)@[slot],
                forall|slot: int|
                    0 <= slot < index ==> slot_refreshes(#[trigger] old(self)@[slot], self@[slot]),
            decreases self.attributes.len() - index,
        {
            let ghost before = self@;
            if let Some(attr) = &mut self.attributes[index] {
                attr.recalculate();
            }
            proof {
                assert forall|slot: int| index < slot < self@.len() implies #[trigger] self@[slot]
                    == old(self)@[slot] by {
                    assert(self@[slot] == before[slot]);
                }
                assert forall|slot: int| 0 <= slot < index + 1 implies slot_refreshes(
                    #[trigger] old(self)@[slot],
                    self@[slot],
                ) by {
                    if slot < index {
                        assert(self@[slot] == before[slot]);
                    } else {
                        assert(before[slot] == old(self)@[slot]);
                    }
                }
            }
            index += 1;
        }
        proof {
            assert forall|slot: int| 0 <= slot < self@.len() implies ((#[trigger] self@[slot]) matches Some(
                attribute,
            ) ==> !attribute.dirty) by {
                lemma_refreshed_slot_is_settled(old(self)@[slot], self@[slot]);
            }
            if old(self).wf() {
                assert forall|slot: int| 0 <= slot < self@.len() implies self@[slot] == old(
                    self,
                )@[slot] by {
                    lemma_refreshed_slot_is_settled(old(self)@[slot], self@[slot]);
                }
                assert(self@ =~= old(self)@);
            }
        }
    }

    /// The current value of the attribute of `id`, brought up to date first;
    /// nothing where the slot is not initialized.
    pub fn get_value(&mut self, id: AttributeId) -> (value: Option<V>)
        requires
            old(self).wf(),
            id.slot() < ATTRIBUTE_SET_SIZE,
        ensures
            final(self).wf(),
            final(self)@ == old(self)@,
            value == Self::current_in(old(self)@, id),
    {
        let index = id.to_index();
        let mut value = None;
        if let Some(attr) = &mut self.attributes[index] {
            attr.recalculate();
            value = Some(attr.get_current_value());
        }
        proof {
            assert(self@ =~= old(self)@);
        }
        value
    }

    /// The current value that `table` holds for `id`, if there is one.
    pub open spec fn current_in(table: AttributeSetView<V>, id: AttributeId) -> Option<V> {
        if id.slot() < table.len() {
            match table[id.slot() as int] {
                Some(attribute) => Some(attribute.current),
                None => None,
            }
        } else {
            None
        }
    }

    /// The current value of the attribute of `id`; nothing where the table
    /// has no such attribute.
    pub fn get_current_value(&self, id: AttributeId) -> (value: Option<V>)
        requires
            self.wf(),
        ensures
            value == Self::current_in(self@, id),
    {
        let index = id.to_index();
        if index < self.attributes.len() {
            match &self.attributes[index] {
                Some(attr) => {
                    assert(self@[index as int] == Some(attr@));
                    Some(attr.get_current_value())
                },
                None => None,
            }
        } else {
            None
        }
    }

    /// Applies `spec` as an instant change to the attribute it is for. The
    /// change is not kept in any aggregator.
    pub fn apply_instant_modifier(&mut self, spec: &ModifierSpec<V>)
        requires
            old(self).wf(),
        ensures
            final(self).wf(),
            table_takes_instant(old(self)@, *spec, final(self)@),
    {
        let index = spec.get_id().to_index();
        if index < self.attributes.len() {
            if let Some(attr) = &mut self.attributes[index] {
                attr.apply_instant_modifier(spec);
            }
        }
        proof {
            if !(index < old(self)@.len() && old(self)@[index as int].is_some()) {
                assert(self@ =~= old(self)@);
            }
            assert forall|slot: int| 0 <= slot < self@.len() implies ((#[trigger] self@[slot]) matches Some(
                attribute,
            ) ==> !attribute.dirty) by {
                if slot != index {
                    assert(self@[slot] == old(self)@[slot]);
                }
            }
        }
    }

    /// Applies `spec` under `handle` to the aggregator of the attribute it is
    /// for, and recalculates that attribute.
    pub fn apply_duration_modifier(&mut self, spec: &ModifierSpec<V>, handle: ActiveEffectHandle)
        requires
            old(self).wf(),
        ensures
            final(self).wf(),
            table_takes_term(old(self)@, *spec, handle, final(self)@),
    {
        let index = spec.get_id().to_index();
        if index < self.attributes.len() {
            if let Some(attr) = &mut self.attributes[index] {
                attr.apply_modifier_spec(spec, handle);
                attr.recalculate();
            }
        }
        proof {
            if !(index < old(self)@.len() && old(self)@[index as int].is_some()) {
                assert(self@ =~= old(self)@);
            }
            assert forall|slot: int| 0 <= slot < self@.len() implies ((#[trigger] self@[slot]) matches Some(
                attribute,
            ) ==> !attribute.dirty) by {
                if slot != index {
                    assert(self@[slot] == old(self)@[slot]);
                }
            }
        }
    }

    /// Applies every modifier of `specs` as an instant change, first to last.
    pub fn apply_instant_modifiers(&mut self, specs: &[ModifierSpec<V>])
        requires
            old(self).wf(),
        ensures
            final(self).wf(),
            table_takes_instants(old(self)@, specs@, final(self)@),
    {
        let ghost mut tables: Seq<AttributeSetView<V>> = seq![self@];
        let mut k: usize = 0;
        while k < specs.len()
            invariant
                k <= specs.len(),
                self.wf(),
                tables.len() == k + 1,
                tables[0] == old(self)@,
                tables.last() == self@,
                forall|j: int|
                    0 <= j < k ==> table_takes_instant(tables[j], specs@[j], #[trigger] tables[j + 1]),
            decreases specs.len() - k,
        {
            let ghost before = tables;
            self.apply_instant_modifier(&specs[k]);
            proof {
                tables = before.push(self@);
                assert forall|j: int| 0 <= j < k + 1 implies table_takes_instant(
                    tables[j],
                    specs@[j],
                    #[trigger] tables[j + 1],
                ) by {
                    if j < k {
                        assert(tables[j] == before[j]);
                        assert(tables[j + 1] == before[j + 1]);
                    }
                }
            }
            k += 1;
        }
        proof {
            assert(is_instant_trace(specs@, tables));
        }
    }

    /// Applies every modifier of `specs` under `handle`, first to last.
    pub fn apply_duration_modifiers(&mut self, specs: &[ModifierSpec<V>], handle: ActiveEffectHandle)
        requires
            old(self).wf(),
        ensures
            final(self).wf(),
            table_takes_terms(old(self)@, specs@, handle, final(self)@),
    {
        let ghost mut tables: Seq<AttributeSetView<V>> = seq![self@];
        let mut k: usize = 0;
        while k < specs.len()
            invariant
                k <= specs.len(),
                self.wf(),
                tables.len() == k + 1,
                tables[0] == old(self)@,
                tables.last() == self@,
                forall|j: int|
                    0 <= j < k ==> table_takes_term(
                        tables[j],
                        specs@[j],
                        handle,
                        #[trigger] tables[j + 1],
                    ),
            decreases specs.len() - k,
        {
            let ghost before = tables;
            self.apply_duration_modifier(&specs[k], handle);
            proof {
                tables = before.push(self@);
                assert forall|j: int| 0 <= j < k + 1 implies table_takes_term(
                    tables[j],
                    specs@[j],
                    handle,
                    #[trigger] tables[j + 1],
                ) by {
                    if j < k {
                        assert(tables[j] == before[j]);
                        assert(tables[j + 1] == before[j + 1]);
                    }
                }
            }
            k += 1;
        }
        proof {
            assert(is_term_trace(specs@, handle, tables));
        }
    }

    /// Takes out of every aggregator everything that was put there under
    /// `handle`, and recalculates every attribute.
    pub fn remove_modifiers(&mut self, handle: ActiveEffectHandle)
        requires
            old(self).wf(),
        ensures
            final(self).wf(),
            table_drops_handle(old(self)@, handle, final(self)@),
    {
        let mut index: usize = 0;
        while index < self.attributes.len()
            invariant
                index <= self.attributes.len(),
                self@.len() == old(self)@.len(),
                old(self).wf(),
                forall|slot: int|
                    index <= slot < self@.len() ==> #[trigger] self@[slot] == old(self)@[slot],
                forall|slot: int|
                    0 <= slot < index ==> match #[trigger] old(self)@[slot] {
                        Some(attribute) => self@[slot] matches Some(changed)
                            && attribute.without_terms_of(handle).can_refresh_to(changed),
                        None => self@[slot].is_none(),
                    },
            decreases self.attributes.len() - index,
        {
            let ghost before = self@;
            if let Some(attr) = &mut self.attributes[index] {
                attr.remove_modifier_by_handle(handle);
            }
            proof {
                assert forall|slot: int| index < slot < self@.len() implies #[trigger] self@[slot]
                    == old(self)@[slot] by {
                    assert(self@[slot] == before[slot]);
                }
                assert forall|slot: int| 0 <= slot < index + 1 implies match #[trigger] old(self)@[slot] {
                    Some(attribute) => self@[slot] matches Some(changed)
                        && attribute.without_terms_of(handle).can_refresh_to(changed),
                    None => self@[slot].is_none(),
                } by {
                    if slot < index {
                        assert(self@[slot] == before[slot]);
                    } else {
                        assert(before[slot] == old(self)@[slot]);
                    }
                }
            }
            index += 1;
        }
        proof {
            assert forall|slot: int| 0 <= slot < self@.len() implies ((#[trigger] self@[slot]) matches Some(
                attribute,
            ) ==> !attribute.dirty) by {
                assert(old(self)@[slot].is_some() || old(self)@[slot].is_none());
            }
        }
    }
}

impl<V: Scalar> Default for AttributeSet<V> {
    fn default() -> (set: Self)
        ensures
            set.wf(),
            forall|slot: int| 0 <= slot < ATTRIBUTE_SET_SIZE ==> (#[trigger] set@[slot]).is_none(),
    {
        Self::new()
    }
}

} // verus!
