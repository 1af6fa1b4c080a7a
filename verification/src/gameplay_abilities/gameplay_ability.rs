use std::sync::Arc;
use vstd::prelude::*;
use crate::gameplay_effects::gameplay_effect::GameplayEffect;
use crate::gameplay_tags::gameplay_tag::GameplayTag;
use crate::scalar::Scalar;

verus! {

/// The tags of an ability: those that describe it, those of the abilities it
/// cancels, and those of the abilities it blocks.
pub struct AbilityTags {
    pub _ability_asset_tags: Vec<GameplayTag>,
    pub _cancel_abilities_with_tags: Vec<GameplayTag>,
    pub _block_abilities_with_tags: Vec<GameplayTag>,
}

/// An ability as authored: its tags, and the effects that stand for its
/// cooldown and its cost.
#[verifier::reject_recursive_types(V)]
pub struct GameplayAbility<V: Scalar> {
    pub _ability_tags: AbilityTags,
    pub _cooldown: Option<Arc<GameplayEffect<V>>>,
    pub _cost: Option<Arc<GameplayEffect<V>>>,
}

/// An ability as granted to an actor.
#[derive(Clone)]
#[verifier::reject_recursive_types(V)]
pub struct GameplayAbilitySpec<V: Scalar> {
    pub _def: Arc<GameplayAbility<V>>,
}

} // verus!
