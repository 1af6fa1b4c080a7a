use std::sync::Arc;
use vstd::prelude::*;
use crate::gameplay_effects::gameplay_effect::{GameplayEffect, StackingType};
use crate::gameplay_tags::gameplay_tag::GameplayTag;
use crate::modifiers::modifier::ModifierSpec;
use crate::scalar::{is_greater_than, is_zero, Scalar};

verus! {

/// How long a resolved effect lasts.
#[derive(Debug, Clone, Copy)]
pub enum EffectDurationSpec<V: Scalar> {
    Instant,
    Duration(V),
    Infinite,
}

impl<V: Scalar> EffectDurationSpec<V> {
    pub fn is_infinite(&self) -> (answer: bool)
        ensures
            answer == (*self is Infinite),
    {
        matches!(self, EffectDurationSpec::Infinite)
    }

    pub fn is_instant(&self) -> (answer: bool)
        ensures
            answer == (*self is Instant),
    {
        matches!(self, EffectDurationSpec::Instant)
    }

    pub fn is_duration(&self) -> (answer: bool)
        ensures
            answer == (*self is Duration),
    {
        matches!(self, EffectDurationSpec::Duration(_))
    }
}

/// `periodic` can come of asking whether `period` is a span after which an
/// effect acts again: whether it is greater than zero.
pub open spec fn is_periodic<V: Scalar>(period: V, periodic: bool) -> bool {
    exists|zero: V| #[trigger] is_zero(zero) && is_greater_than(period, zero, periodic)
}

/// The resolved period of an effect: the span between two of its actions, and
/// whether it acts at the moment it is applied.
#[derive(Debug, Clone, Copy)]
pub struct EffectPeriodSpec<V: Scalar> {
    pub _period: V,
    pub _execute_on_applied: bool,
}

impl<V: Scalar> EffectPeriodSpec<V> {
    pub fn new(period: V, execute_on_applied: bool) -> (spec: Self)
        ensures
            spec._period == period,
            spec._execute_on_applied == execute_on_applied,
    {
        Self { _period: period, _execute_on_applied: execute_on_applied }
    }

    pub fn get_period(&self) -> (period: V)
        ensures
            period == self._period,
    {
        self._period
    }

    pub fn get_execute_on_applied(&self) -> (answer: bool)
        ensures
            answer == self._execute_on_applied,
    {
        self._execute_on_applied
    }

    /// Whether the span is one after which an effect acts again.
    pub fn is_periodic(&self) -> (periodic: bool)
        ensures
            is_periodic(self._period, periodic),
    {
        let zero = V::zero();
        let periodic = self._period.greater_than(zero);
        proof {
            assert(is_zero(zero) && is_greater_than(self._period, zero, periodic));
        }
        periodic
    }
}

/// An effect as resolved at the moment it is applied: its definition, and
/// the numbers that its magnitudes came to at that moment.
#[derive(Clone)]
#[verifier::reject_recursive_types(V)]
pub struct GameplayEffectSpec<V: Scalar> {
    pub def: Arc<GameplayEffect<V>>,
    pub modifier_specs: Vec<ModifierSpec<V>>,
    pub duration_spec: EffectDurationSpec<V>,
    pub _period_spec: Option<EffectPeriodSpec<V>>,
    pub _stacking_type: StackingType,
    pub _stacking_limit: u32,
    pub _level: u32,
}

impl<V: Scalar> GameplayEffectSpec<V> {
    pub fn new(
        def: Arc<GameplayEffect<V>>,
        modifier_specs: Vec<ModifierSpec<V>>,
        duration_spec: EffectDurationSpec<V>,
        period_spec: Option<EffectPeriodSpec<V>>,
        stacking_type: StackingType,
        stacking_limit: u32,
        level: u32,
    ) -> (spec: Self)
        ensures
            spec.def == def,
            spec.modifier_specs == modifier_specs,
            spec.duration_spec == duration_spec,
            spec._period_spec == period_spec,
            spec._stacking_type == stacking_type,
            spec._stacking_limit == stacking_limit,
            spec._level == level,
    {
        Self {
            def,
            modifier_specs,
            duration_spec,
            _period_spec: period_spec,
            _stacking_type: stacking_type,
            _stacking_limit: stacking_limit,
            _level: level,
        }
    }

    pub fn get_asset_tags(&self) -> (tags: &[GameplayTag])
        ensures
            tags@ == self.def.tags.asset_tags@,
    {
        self.def.get_tags().get_asset_tags()
    }

    pub fn get_granted_tags(&self) -> (tags: &[GameplayTag])
        ensures
            tags@ == self.def.tags.granted_tags@,
    {
        self.def.get_tags().get_granted_tags()
    }

    pub fn get_required_tags(&self) -> (tags: &[GameplayTag])
        ensures
            tags@ == self.def.tags.required_tags@,
    {
        self.def.get_tags().get_required_tags()
    }

    pub fn get_blocked_tags(&self) -> (tags: &[GameplayTag])
        ensures
            tags@ == self.def.tags.blocked_tags@,
    {
        self.def.get_tags().get_blocked_tags()
    }

    pub fn get_remove_effects_with_tags(&self) -> (tags: &[GameplayTag])
        ensures
            tags@ == self.def.tags.remove_effects_with_tags@,
    {
        self.def.get_tags().get_remove_effects_with_tags()
    }

    pub fn get_duration_spec(&self) -> (duration: &EffectDurationSpec<V>)
        ensures
            *duration == self.duration_spec,
    {
        &(self.duration_spec)
    }

    pub fn get_period_spec(&self) -> (period: Option<EffectPeriodSpec<V>>)
        ensures
            period == self._period_spec,
    {
        self._period_spec
    }

    pub fn get_modifier_specs(&self) -> (specs: &[ModifierSpec<V>])
        ensures
            specs@ == self.modifier_specs@,
    {
        self.modifier_specs.as_slice()
    }

    pub fn get_level(&self) -> (level: u32)
        ensures
            level == self._level,
    {
        self._level
    }
}

} // verus!
