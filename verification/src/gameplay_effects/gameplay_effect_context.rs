use vstd::prelude::*;
use crate::attributes::attribute_id_manager::AttributeId;
use crate::attributes::attribute_set::AttributeSet;
use crate::scalar::Scalar;

verus! {

/// Which of the two actors of an application is meant.
#[derive(Debug, Clone, Copy, PartialEq, Eq, Structural)]
pub enum EffectContextEntityType {
    Source,
    Target,
}

/// The circumstances in which an effect is applied: who applies it to whom,
/// at which level, and what the attributes of the two are at that moment.
#[verifier::reject_recursive_types(V)]
pub struct EffectContext<'w, V: Scalar> {
    pub source: Option<u64>,
    pub target: Option<u64>,
    pub source_attributes: Option<&'w AttributeSet<V>>,
    pub target_attributes: Option<&'w AttributeSet<V>>,
    pub level: u32,
}

impl<'w, V: Scalar> EffectContext<'w, V> {
    /// The attribute tables that the context can read are well formed.
    pub open spec fn wf(&self) -> bool {
        &&& self.source_attributes matches Some(attributes) ==> attributes.wf()
        &&& self.target_attributes matches Some(attributes) ==> attributes.wf()
    }

    /// The attribute table of the actor that is meant, where the context
    /// names that actor and can read its table.
    pub open spec fn attributes_of(&self, entity_type: EffectContextEntityType) -> Option<
        &'w AttributeSet<V>,
    > {
        match entity_type {
            EffectContextEntityType::Source => if self.source.is_some() {
                self.source_attributes
            } else {
                None
            },
            EffectContextEntityType::Target => if self.target.is_some() {
                self.target_attributes
            } else {
                None
            },
        }
    }

    /// The current value of the attribute `id` of the actor that is meant;
    /// nothing where the context does not name that actor, cannot read its
    /// table, or the table has no such attribute.
    pub fn get_attribute_current_value(
        &self,
        entity_type: EffectContextEntityType,
        id: AttributeId,
    ) -> (value: Option<V>)
        requires
            self.wf(),
        ensures
            value == (match self.attributes_of(entity_type) {
                Some(attributes) => AttributeSet::<V>::current_in(attributes@, id),
                None => None,
            }),
    {
        let (entity, attributes) = match entity_type {
            EffectContextEntityType::Source => (self.source, self.source_attributes),
            EffectContextEntityType::Target => (self.target, self.target_attributes),
        };
        match (entity, attributes) {
            (Some(_), Some(attr_set)) => attr_set.get_current_value(id),
            _ => None,
        }
    }
}

} // verus!
