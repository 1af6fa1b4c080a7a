use std::sync::Arc;
use vstd::prelude::*;
use crate::gameplay_effects::gameplay_effect_context::EffectContext;
use crate::gameplay_effects::gameplay_effect_spec::{
    EffectDurationSpec, EffectPeriodSpec, GameplayEffectSpec,
};
use crate::gameplay_tags::gameplay_tag::GameplayTag;
use crate::modifiers::modifier::{Modifier, ModifierMagnitude, ModifierSpec};
use crate::scalar::Scalar;

verus! {

/// How long an effect lasts, as authored.
#[verifier::reject_recursive_types(V)]
pub enum EffectDuration<V: Scalar> {
    Instant,
    Duration(ModifierMagnitude<V>),
    Infinite,
}

impl<V: Scalar> EffectDuration<V> {
    /// Whether `spec` can be what this duration resolves to: the same kind,
    /// with a span that the magnitude can come to.
    pub open spec fn can_resolve_to(&self, spec: EffectDurationSpec<V>) -> bool {
        match self {
            EffectDuration::Instant => spec is Instant,
            EffectDuration::Duration(magnitude) => spec matches EffectDurationSpec::Duration(span)
                && magnitude.can_resolve_to(span),
            EffectDuration::Infinite => spec is Infinite,
        }
    }

    /// Resolves the duration in `context`.
    pub fn make_spec(&self, context: &EffectContext<'_, V>) -> (spec: EffectDurationSpec<V>)
        requires
            context.wf(),
        ensures
            self.can_resolve_to(spec),
    {
        match self {
            EffectDuration::Instant => EffectDurationSpec::Instant,
            EffectDuration::Duration(mm) => EffectDurationSpec::Duration(mm.resolve(context)),
            EffectDuration::Infinite => EffectDurationSpec::Infinite,
        }
    }
}

/// The period of an effect, as authored: the span between two of its actions,
/// and whether it acts at the moment it is applied.
#[verifier::reject_recursive_types(V)]
pub struct EffectPeriod<V: Scalar> {
    pub period: ModifierMagnitude<V>,
    pub execute_on_applied: bool,
}

impl<V: Scalar> EffectPeriod<V> {
    /// Whether `spec` can be what this period resolves to.
    pub open spec fn can_resolve_to(&self, spec: EffectPeriodSpec<V>) -> bool {
        self.period.can_resolve_to(spec._period) && spec._execute_on_applied
            == self.execute_on_applied
    }

    pub fn new(period: ModifierMagnitude<V>, execute_on_applied: bool) -> (authored: Self)
        ensures
            authored.period == period,
            authored.execute_on_applied == execute_on_applied,
    {
        Self { period, execute_on_applied }
    }

    /// Resolves the period in `context`.
    pub fn make_spec(&self, context: &EffectContext<'_, V>) -> (spec: EffectPeriodSpec<V>)
        requires
            context.wf(),
        ensures
            self.can_resolve_to(spec),
    {
        EffectPeriodSpec::new(self.period.resolve(context), self.execute_on_applied)
    }
}

/// What is to happen when an effect is applied to an actor on which it runs
/// already. The policy and its limit are kept with every resolved effect;
/// applying does not act on them, so that an effect applied again runs
/// beside the instance before it.
#[derive(Debug, Clone, Copy, PartialEq, Eq, Structural)]
pub enum StackingType {
    NoStacking,
    Aggregate,
    Override,
}

/// The tags of an effect: those it grants while it runs, those its target
/// must hold, those its target must not hold, those that describe it, and
/// those of the effects it removes.
pub struct EffectTags {
    pub granted_tags: Vec<GameplayTag>,
    pub required_tags: Vec<GameplayTag>,
    pub blocked_tags: Vec<GameplayTag>,
    pub asset_tags: Vec<GameplayTag>,
    pub remove_effects_with_tags: Vec<GameplayTag>,
}

impl EffectTags {
    pub fn new(
        granted_tags: Vec<GameplayTag>,
        required_tags: Vec<GameplayTag>,
        blocked_tags: Vec<GameplayTag>,
    ) -> (tags: Self)
        ensures
            tags.granted_tags == granted_tags,
            tags.required_tags == required_tags,
            tags.blocked_tags == blocked_tags,
            tags.asset_tags@.len() == 0,
            tags.remove_effects_with_tags@.len() == 0,
    {
        Self {
            granted_tags,
            required_tags,
            blocked_tags,
            asset_tags: Vec::new(),
            remove_effects_with_tags: Vec::new(),
        }
    }

    pub fn get_granted_tags(&self) -> (tags: &[GameplayTag])
        ensures
            tags@ == self.granted_tags@,
    {
        self.granted_tags.as_slice()
    }

    pub fn get_required_tags(&self) -> (tags: &[GameplayTag])
        ensures
            tags@ == self.required_tags@,
    {
        self.required_tags.as_slice()
    }

    pub fn get_blocked_tags(&self) -> (tags: &[GameplayTag])
        ensures
            tags@ == self.blocked_tags@,
    {
        self.blocked_tags.as_slice()
    }

    pub fn get_asset_tags(&self) -> (tags: &[GameplayTag])
        ensures
            tags@ == self.asset_tags@,
    {
        self.asset_tags.as_slice()
    }

    pub fn get_remove_effects_with_tags(&self) -> (tags: &[GameplayTag])
        ensures
            tags@ == self.remove_effects_with_tags@,
    {
        self.remove_effects_with_tags.as_slice()
    }
}

/// An effect as authored.
#[verifier::reject_recursive_types(V)]
pub struct GameplayEffect<V: Scalar> {
    pub modifiers: Vec<Modifier<V>>,
    pub duration: EffectDuration<V>,
    pub period: Option<EffectPeriod<V>>,
    pub probability_to_apply: V,
    pub stacking_type: StackingType,
    pub stacking_limit: u32,
    pub tags: EffectTags,
}

impl<V: Scalar> GameplayEffect<V> {
    /// Whether `spec` can be what this effect resolves to at `level`: one
    /// resolved modifier for each authored one, in order, a resolved duration
    /// and period, and the stacking and level as given.
    pub open spec fn can_resolve_to(&self, level: u32, spec: GameplayEffectSpec<V>) -> bool {
        &&& *spec.def == *self
        &&& spec.modifier_specs@.len() == self.modifiers@.len()
        &&& forall|k: int|
            0 <= k < self.modifiers@.len() ==> (#[trigger] self.modifiers@[k]).can_resolve_to(
                spec.modifier_specs@[k],
            )
        &&& self.duration.can_resolve_to(spec.duration_spec)
        &&& match self.period {
            Some(period) => spec._period_spec matches Some(resolved) && period.can_resolve_to(
                resolved,
            ),
            None => spec._period_spec.is_none(),
        }
        &&& spec._stacking_type == self.stacking_type
        &&& spec._stacking_limit == self.stacking_limit
        &&& spec._level == level
    }

    pub fn new(
        modifiers: Vec<Modifier<V>>,
        duration: EffectDuration<V>,
        period: Option<EffectPeriod<V>>,
        probability_to_apply: V,
        stacking_type: StackingType,
        stacking_limit: u32,
        tags: EffectTags,
    ) -> (effect: Self)
        ensures
            effect.modifiers == modifiers,
            effect.duration == duration,
            effect.period == period,
            effect.probability_to_apply == probability_to_apply,
            effect.stacking_type == stacking_type,
            effect.stacking_limit == stacking_limit,
            effect.tags == tags,
    {
        Self {
            modifiers,
            duration,
            period,
            probability_to_apply,
            stacking_type,
            stacking_limit,
            tags,
        }
    }

    pub fn get_probability_to_apply(&self) -> (probability: V)
        ensures
            probability == self.probability_to_apply,
    {
        self.probability_to_apply
    }

    pub fn get_tags(&self) -> (tags: &EffectTags)
        ensures
            *tags == self.tags,
    {
        &self.tags
    }

    /// Resolves the effect in `context`: every magnitude is worked out once.
    pub fn make_spec(definition: &Arc<Self>, context: &EffectContext<'_, V>) -> (spec:
        GameplayEffectSpec<V>)
        requires
            context.wf(),
        ensures
            definition.can_resolve_to(context.level, spec),
    {
        let mut modifier_specs: Vec<ModifierSpec<V>> = Vec::new();
        let mut k: usize = 0;
        while k < definition.modifiers.len()
            invariant
                k <= definition.modifiers@.len(),
                context.wf(),
                modifier_specs@.len() == k,
                forall|j: int|
                    0 <= j < k ==> (#[trigger] definition.modifiers@[j]).can_resolve_to(
                        modifier_specs@[j],
                    ),
            decreases definition.modifiers@.len() - k,
        {
            let resolved = definition.modifiers[k].make_spec(context);
            modifier_specs.push(resolved);
            k += 1;
        }
        let duration = definition.duration.make_spec(context);
        let period = match &definition.period {
            Some(period) => Some(period.make_spec(context)),
            None => None,
        };
        GameplayEffectSpec::new(
            Arc::clone(definition),
            modifier_specs,
            duration,
            period,
            definition.stacking_type,
            definition.stacking_limit,
            context.level,
        )
    }
}

} // verus!
