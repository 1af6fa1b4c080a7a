use vstd::prelude::*;
use crate::attributes::attribute_aggregator::{Aggregator, AggregatorExecutor, AggregatorView, TermsView};
use crate::gameplay_effects::active_gameplay_effect::ActiveEffectHandle;
use crate::modifiers::modifier::{ModifierOperation, ModifierSpec};
use crate::scalar::{is_larger, is_one, is_product, is_smaller, is_sum, is_zero, Scalar};

verus! {

/// `raised` can come of holding `value` to the lower bound, where there is one.
pub open spec fn is_floored<V: Scalar>(value: V, clamp_min: Option<V>, raised: V) -> bool {
    match clamp_min {
        Some(bound) => is_larger(value, bound, raised),
        None => raised == value,
    }
}

/// `lowered` can come of holding `value` to the upper bound, where there is one.
pub open spec fn is_capped<V: Scalar>(value: V, clamp_max: Option<V>, lowered: V) -> bool {
    match clamp_max {
        Some(bound) => is_smaller(value, bound, lowered),
        None => lowered == value,
    }
}

/// `clamped` can come of holding `value` first to the lower bound and then to
/// the upper one.
pub open spec fn is_clamped<V: Scalar>(
    value: V,
    clamp_min: Option<V>,
    clamp_max: Option<V>,
    clamped: V,
) -> bool {
    exists|raised: V| #[trigger] is_floored(value, clamp_min, raised) && is_capped(raised, clamp_max, clamped)
}

/// `changed` can come of working `value` into `current` by `op`: added,
/// multiplied by one plus it, multiplied by it, or put in its place.
pub open spec fn is_instant_change<V: Scalar>(
    current: V,
    op: ModifierOperation,
    value: V,
    changed: V,
) -> bool {
    match op {
        ModifierOperation::Add => is_sum(current, value, changed),
        ModifierOperation::PercentAdd => exists|one: V, factor: V|
            #![trigger is_sum(one, value, factor)]
            is_one(one) && is_sum(one, value, factor) && is_product(current, factor, changed),
        ModifierOperation::Multiply => is_product(current, value, changed),
        ModifierOperation::Override => changed == value,
    }
}

/// What an attribute holds: its base value, its current value, the bounds the
/// current value is held to, its aggregator, and whether the current value is
/// out of date.
pub struct AttributeView<V: Scalar> {
    pub base: V,
    pub current: V,
    pub clamp_min: Option<V>,
    pub clamp_max: Option<V>,
    pub aggregator: AggregatorView<V>,
    pub dirty: bool,
}

impl<V: Scalar> AttributeView<V> {
    /// Whether `value` can be the current value after a refresh: what the
    /// aggregator makes of the base value, held to the bounds.
    pub open spec fn can_have_current(self, value: V) -> bool {
        exists|raw: V| #[trigger]
            self.aggregator.can_evaluate_to(self.base, raw) && is_clamped(
                raw,
                self.clamp_min,
                self.clamp_max,
                value,
            )
    }

    /// Whether `after` can be this attribute once recalculated: one that is
    /// up to date stays as it is; one that is out of date gets a fresh
    /// current value and is up to date.
    pub open spec fn can_refresh_to(self, after: Self) -> bool {
        if self.dirty {
            after == (AttributeView { current: after.current, dirty: false, ..self })
                && self.can_have_current(after.current)
        } else {
            after == self
        }
    }

    /// Whether `after` can be this attribute once `spec` was applied to it as
    /// an instant change: the number is worked into the current value, which
    /// is held to the bounds; nothing else changes.
    pub open spec fn can_take_instant(self, spec: ModifierSpec<V>, after: Self) -> bool {
        after == (AttributeView { current: after.current, ..self }) && exists|changed: V| #[trigger]
            is_instant_change(self.current, spec.op, spec.value, changed) && is_clamped(
                changed,
                self.clamp_min,
                self.clamp_max,
                after.current,
            )
    }

    /// This attribute with `spec` applied to its aggregator under `handle`
    /// and its current value out of date.
    pub open spec fn with_term(self, spec: ModifierSpec<V>, handle: ActiveEffectHandle) -> Self {
        AttributeView {
            aggregator: AggregatorView {
                terms: self.aggregator.terms.applied(spec, handle),
                ..self.aggregator
            },
            dirty: true,
            ..self
        }
    }

    /// This attribute with everything taken out of its aggregator that was
    /// put there under `handle`, and its current value out of date.
    pub open spec fn without_terms_of(self, handle: ActiveEffectHandle) -> Self {
        AttributeView {
            aggregator: AggregatorView {
                terms: self.aggregator.terms.removed(handle),
                ..self.aggregator
            },
            dirty: true,
            ..self
        }
    }
}

/// A named number of one actor: a base value and the current value that the
/// modifiers at work make of it.
#[verifier::reject_recursive_types(V)]
pub struct Attribute<V: Scalar> {
    base: V,
    current: V,
    clamp_min: Option<V>,
    clamp_max: Option<V>,
    aggregator: Aggregator<V>,
    dirty: bool,
}

impl<V: Scalar> View for Attribute<V> {
    type V = AttributeView<V>;

    closed spec fn view(&self) -> AttributeView<V> {
        AttributeView {
            base: self.base,
            current: self.current,
            clamp_min: self.clamp_min,
            clamp_max: self.clamp_max,
            aggregator: self.aggregator@,
            dirty: self.dirty,
        }
    }
}

impl<V: Scalar> Attribute<V> {
    /// An attribute with base and current value zero, no bounds, an empty
    /// aggregator with the default rule, and its current value out of date.
    pub fn new() -> (attribute: Self)
        ensures
            is_zero(attribute@.base),
            is_zero(attribute@.current),
            attribute@.clamp_min.is_none(),
            attribute@.clamp_max.is_none(),
            attribute@.aggregator.terms == TermsView::<V>::emptied(),
            !attribute@.aggregator.custom_executor,
            attribute@.dirty,
    {
        Self {
            base: V::zero(),
            current: V::zero(),
            clamp_min: None,
            clamp_max: None,
            aggregator: Aggregator::new(),
            dirty: true,
        }
    }

    /// `value` held to the bounds: first to the lower, then to the upper.
    fn clamp(&self, value: V) -> (clamped: V)
        ensures
            is_clamped(value, self@.clamp_min, self@.clamp_max, clamped),
    {
        let mut raised = value;
        if let Some(min) = self.clamp_min {
            raised = raised.larger(min);
        }
        let mut clamped = raised;
        if let Some(max) = self.clamp_max {
            clamped = clamped.smaller(max);
        }
        proof {
            assert(is_floored(value, self@.clamp_min, raised) && is_capped(
                raised,
                self@.clamp_max,
                clamped,
            ));
        }
        clamped
    }

    /// Sets the base value, the bounds and, where one is given, the
    /// combination rule, and recalculates.
    pub fn init(
        &mut self,
        base_value: V,
        clamp_min: Option<V>,
        clamp_max: Option<V>,
        executor: Option<Box<dyn AggregatorExecutor<V>>>,
    )
        ensures
            final(self)@.base == base_value,
            final(self)@.clamp_min == clamp_min,
            final(self)@.clamp_max == clamp_max,
            final(self)@.aggregator.terms == old(self)@.aggregator.terms,
            final(self)@.aggregator.custom_executor == (old(self)@.aggregator.custom_executor
                || executor.is_some()),
            !final(self)@.dirty,
            final(self)@.can_have_current(final(self)@.current),
    {
        self.base = base_value;
        self.clamp_min = clamp_min;
        self.clamp_max = clamp_max;
        self.set_executor(executor);
        self.recalculate();
    }

    /// Brings the current value up to date, if it is not.
    pub fn recalculate(&mut self)
        ensures
            old(self)@.can_refresh_to(final(self)@),
    {
        if self.dirty {
            let raw = self.aggregator.evaluate(self.base);
            let value = self.clamp(raw);
            self.current = value;
            self.dirty = false;
            proof {
                assert(old(self)@.aggregator.can_evaluate_to(old(self)@.base, raw) && is_clamped(
                    raw,
                    old(self)@.clamp_min,
                    old(self)@.clamp_max,
                    value,
                ));
            }
        }
    }

    /// The current value.
    pub fn get_current_value(&self) -> (value: V)
        requires
            !self@.dirty,
        ensures
            value == self@.current,
    {
        self.current
    }

    /// The base value.
    pub fn get_base_value(&self) -> (value: V)
        ensures
            value == self@.base,
    {
        self.base
    }

    /// Whether the current value is out of date.
    pub fn is_dirty(&self) -> (dirty: bool)
        ensures
            dirty == self@.dirty,
    {
        self.dirty
    }

    /// Marks the current value as out of date.
    #[inline]
    pub fn make_dirty(&mut self)
        ensures
            final(self)@ == (AttributeView { dirty: true, ..old(self)@ }),
    {
        self.dirty = true;
    }

    /// Puts `executor` in the place of the combination rule in use, if one is
    /// given, and marks the current value as out of date.
    pub fn set_executor(&mut self, executor: Option<Box<dyn AggregatorExecutor<V>>>)
        ensures
            final(self)@ == (AttributeView {
                aggregator: AggregatorView {
                    custom_executor: old(self)@.aggregator.custom_executor || executor.is_some(),
                    ..old(self)@.aggregator
                },
                dirty: true,
                ..old(self)@
            }),
    {
        self.aggregator.set_executor(executor);
        self.make_dirty();
    }

    /// Applies `spec` to the aggregator under `handle` and marks the current
    /// value as out of date.
    pub fn apply_modifier_spec(&mut self, spec: &ModifierSpec<V>, handle: ActiveEffectHandle)
        ensures
            final(self)@ == old(self)@.with_term(*spec, handle),
    {
        self.aggregator.apply_modifier_spec(spec, handle);
        self.make_dirty();
    }

    /// Works the number of `spec` into the current value and holds the result
    /// to the bounds. The aggregator is left alone.
    pub fn apply_instant_modifier(&mut self, spec: &ModifierSpec<V>)
        ensures
            old(self)@.can_take_instant(*spec, final(self)@),
    {
        let value = spec.get_value();
        let changed = match spec.get_operation() {
            ModifierOperation::Add => self.current.plus(value),
            ModifierOperation::PercentAdd => {
                let one = V::one();
                let factor = one.plus(value);
                let changed = self.current.times(factor);
                proof {
                    assert(is_one(one) && is_sum(one, value, factor) && is_product(
                        self.current,
                        factor,
                        changed,
                    ));
                }
                changed
            },
            ModifierOperation::Multiply => self.current.times(value),
            ModifierOperation::Override => value,
        };
        let clamped = self.clamp(changed);
        self.current = clamped;
        proof {
            assert(is_instant_change(old(self)@.current, spec.op, spec.value, changed) && is_clamped(
                changed,
                old(self)@.clamp_min,
                old(self)@.clamp_max,
                clamped,
            ));
        }
    }

    /// Takes out of the aggregator everything that was put there under
    /// `handle`, and recalculates.
    pub fn remove_modifier_by_handle(&mut self, handle: ActiveEffectHandle)
        ensures
            old(self)@.without_terms_of(handle).can_refresh_to(final(self)@),
    {
        self.aggregator.remove_modifier_by_handle(handle);
        self.make_dirty();
        self.recalculate();
    }

    /// Takes every term and the override out of the aggregator and marks the
    /// current value as out of date.
    pub fn reset_aggregator(&mut self)
        ensures
            final(self)@ == (AttributeView {
                aggregator: AggregatorView {
                    terms: TermsView::<V>::emptied(),
                    ..old(self)@.aggregator
                },
                dirty: true,
                ..old(self)@
            }),
    {
        self.aggregator.reset();
        self.make_dirty();
    }
}

impl<V: Scalar> Default for Attribute<V> {
    fn default() -> (attribute: Self)
        ensures
            is_zero(attribute@.base),
            is_zero(attribute@.current),
            attribute@.clamp_min.is_none(),
            attribute@.clamp_max.is_none(),
            attribute@.aggregator.terms == TermsView::<V>::emptied(),
            !attribute@.aggregator.custom_executor,
            attribute@.dirty,
    {
        Self::new()
    }
}

} // verus!
