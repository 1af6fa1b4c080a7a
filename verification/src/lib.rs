pub mod ability_system;
pub mod attributes;
pub mod gameplay_abilities;
pub mod gameplay_effects;
pub mod gameplay_tags;
pub mod laws;
pub mod modifiers;
pub mod paths;
pub mod scalar;
pub mod settings;
pub mod tables;
pub mod unique_name;

pub use ability_system::ability_system_component::AbilitySystemComponent;
pub use attributes::attribute::Attribute;
pub use attributes::attribute_aggregator::{
    default_executor, Aggregator, AggregatorExecutor, AggregatorTerms,
};
pub use attributes::attribute_id_manager::{AttributeId, AttributeIdManager, AttributeIdRegister};
pub use attributes::attribute_set::AttributeSet;
pub use gameplay_abilities::gameplay_ability::{AbilityTags, GameplayAbility, GameplayAbilitySpec};
pub use gameplay_effects::active_gameplay_effect::{
    apply_gameplay_effect, apply_gameplay_effect_spec, check_tag_gate, roll_for_application,
    tick_gameplay_effects_system, ActiveEffectHandle, ActiveEffectHandleGenerator,
    ActiveGameplayEffect, GameplayEffectParams,
};
pub use gameplay_effects::gameplay_effect::{
    EffectDuration, EffectPeriod, EffectTags, GameplayEffect, StackingType,
};
pub use gameplay_effects::gameplay_effect_context::{EffectContext, EffectContextEntityType};
pub use gameplay_effects::gameplay_effect_spec::{
    EffectDurationSpec, EffectPeriodSpec, GameplayEffectSpec,
};
pub use gameplay_tags::gameplay_tag::{GameplayTag, GameplayTagRegister, TAG_PATH_DELIMITER};
pub use gameplay_tags::gameplay_tag_bits::{
    add_bit_with_tag, empty_tag_bits, tag_bits_from_tags, GameplayTagBits, BLOCK_SIZE_EXPONENT,
    MAX_TAG_BLOCKS, MAX_TAG_COUNTS, TAG_BITS_PER_BLOCK,
};
pub use gameplay_tags::gameplay_tag_container::GameplayTagContainer;
pub use gameplay_tags::gameplay_tag_container_pool::GameplayTagContainerPool;
pub use gameplay_tags::gameplay_tag_manager::GameplayTagManager;
pub use gameplay_tags::gameplay_tag_operation::{process_tag_operations, GameplayTagOperation};
pub use modifiers::modifier::{
    AppliedModifier, Modifier, ModifierMagnitude, ModifierMagnitudeCalculation, ModifierOperation,
    ModifierSpec,
};
pub use scalar::Scalar;
pub use settings::{ATTRIBUTE_SET_SIZE, GAMEPLAY_TAG_SIZE};
pub use unique_name::{UniqueName, UniqueNamePool};
