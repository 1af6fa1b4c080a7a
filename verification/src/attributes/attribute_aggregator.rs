use vstd::prelude::*;
use crate::gameplay_effects::active_gameplay_effect::ActiveEffectHandle;
use crate::modifiers::modifier::{AppliedModifier, ModifierOperation, ModifierSpec};
use crate::scalar::{
    is_one, is_product, is_product_trace, is_running_product, is_running_sum, is_sum,
    is_sum_trace, is_zero, Scalar,
};

verus! {

/// The numbers of a list of terms, in the order of the list.
pub open spec fn values_of<V: Scalar>(terms: Seq<AppliedModifier<V>>) -> Seq<V> {
    Seq::new(terms.len(), |k: int| terms[k].value)
}

/// The terms of `terms` that were not put there under `handle`, in order.
pub open spec fn without_handle<V: Scalar>(
    terms: Seq<AppliedModifier<V>>,
    handle: ActiveEffectHandle,
) -> Seq<AppliedModifier<V>>
    decreases terms.len(),
{
    if terms.len() == 0 {
        terms
    } else if terms.last().handle == handle {
        without_handle(terms.drop_last(), handle)
    } else {
        without_handle(terms.drop_last(), handle).push(terms.last())
    }
}

/// Whether some term of `terms` was put there under `handle`.
pub open spec fn mentions_handle<V: Scalar>(
    terms: Seq<AppliedModifier<V>>,
    handle: ActiveEffectHandle,
) -> bool {
    exists|k: int| 0 <= k < terms.len() && (#[trigger] terms[k]).handle == handle
}

/// Taking out the terms of a handle that put none there changes nothing.
pub proof fn lemma_without_absent_handle<V: Scalar>(
    terms: Seq<AppliedModifier<V>>,
    handle: ActiveEffectHandle,
)
    requires
        !mentions_handle(terms, handle),
    ensures
        without_handle(terms, handle) == terms,
    decreases terms.len(),
{
    if terms.len() != 0 {
        assert(terms[terms.len() - 1].handle != handle);
        assert forall|k: int| 0 <= k < terms.drop_last().len() implies (#[trigger] terms.drop_last()[k]).handle
            != handle by {
            assert(terms[k].handle != handle);
        }
        lemma_without_absent_handle(terms.drop_last(), handle);
        assert(terms.drop_last().push(terms.last()) =~= terms);
    }
}

/// The terms at work on one attribute: those of each kind in the order in
/// which they came, and the override if there is one.
pub struct TermsView<V: Scalar> {
    pub additive: Seq<AppliedModifier<V>>,
    pub percent_additive: Seq<AppliedModifier<V>>,
    pub multiplicative: Seq<AppliedModifier<V>>,
    pub override_value: Option<AppliedModifier<V>>,
}

/// What an aggregator holds: its terms, and whether a combination rule of the
/// caller's stands in for the default one.
pub struct AggregatorView<V: Scalar> {
    pub terms: TermsView<V>,
    pub custom_executor: bool,
}

impl<V: Scalar> TermsView<V> {
    /// The aggregator after `spec` was applied under `handle`: an override
    /// replaces the one before it, any other term joins the end of its list.
    pub open spec fn applied(self, spec: ModifierSpec<V>, handle: ActiveEffectHandle) -> Self {
        let term = AppliedModifier { handle, value: spec.value };
        match spec.op {
            ModifierOperation::Add => TermsView { additive: self.additive.push(term), ..self },
            ModifierOperation::PercentAdd => TermsView {
                percent_additive: self.percent_additive.push(term),
                ..self
            },
            ModifierOperation::Multiply => TermsView {
                multiplicative: self.multiplicative.push(term),
                ..self
            },
            ModifierOperation::Override => TermsView { override_value: Some(term), ..self },
        }
    }

    /// The aggregator after everything put there under `handle` was taken out.
    pub open spec fn removed(self, handle: ActiveEffectHandle) -> Self {
        TermsView {
            additive: without_handle(self.additive, handle),
            percent_additive: without_handle(self.percent_additive, handle),
            multiplicative: without_handle(self.multiplicative, handle),
            override_value: match self.override_value {
                Some(term) => if term.handle == handle {
                    None
                } else {
                    Some(term)
                },
                None => None,
            },
        }
    }

    /// No term and no override.
    pub open spec fn emptied() -> Self {
        TermsView {
            additive: Seq::empty(),
            percent_additive: Seq::empty(),
            multiplicative: Seq::empty(),
            override_value: None,
        }
    }

    /// Whether anything in the aggregator was put there under `handle`.
    pub open spec fn mentions(self, handle: ActiveEffectHandle) -> bool {
        ||| mentions_handle(self.additive, handle)
        ||| mentions_handle(self.percent_additive, handle)
        ||| mentions_handle(self.multiplicative, handle)
        ||| (self.override_value matches Some(term) && term.handle == handle)
    }

    /// Whether `value` can come of the default combination on `base_value`:
    /// an override is the value whatever the terms are; otherwise the
    /// additive terms are added to the base, the sum is multiplied by one
    /// plus the sum of the percent terms, and the product is multiplied by
    /// each multiplicative term, all in the order in which the terms came.
    pub open spec fn default_outcome(self, base_value: V, value: V) -> bool {
        match self.override_value {
            Some(term) => value == term.value,
            None => exists|sum: V, zero: V, percent: V, one: V, factor: V, scaled: V|
                #![trigger
                    is_running_sum(base_value, values_of(self.additive), sum),
                    is_running_sum(zero, values_of(self.percent_additive), percent),
                    is_sum(one, percent, factor),
                    is_product(sum, factor, scaled)
                ]
                {
                    &&& is_running_sum(base_value, values_of(self.additive), sum)
                    &&& is_zero(zero)
                    &&& is_running_sum(zero, values_of(self.percent_additive), percent)
                    &&& is_one(one)
                    &&& is_sum(one, percent, factor)
                    &&& is_product(sum, factor, scaled)
                    &&& is_running_product(scaled, values_of(self.multiplicative), value)
                },
        }
    }

}

impl<V: Scalar> AggregatorView<V> {
    /// Whether `value` can come of evaluating on `base_value`: an override
    /// is the value whatever the rule is; otherwise the value is a default
    /// outcome with the default rule, and whatever the rule yields with a
    /// rule of the caller's.
    pub open spec fn can_evaluate_to(self, base_value: V, value: V) -> bool {
        match self.terms.override_value {
            Some(term) => value == term.value,
            None => self.custom_executor || self.terms.default_outcome(base_value, value),
        }
    }
}

/// The terms at work on one attribute, as a combination rule reads them.
pub struct AggregatorTerms<V: Scalar> {
    pub additive: Vec<AppliedModifier<V>>,
    pub percent_additive: Vec<AppliedModifier<V>>,
    pub multiplicative: Vec<AppliedModifier<V>>,
    pub override_value: Option<AppliedModifier<V>>,
}

impl<V: Scalar> View for AggregatorTerms<V> {
    type V = TermsView<V>;

    open spec fn view(&self) -> TermsView<V> {
        TermsView {
            additive: self.additive@,
            percent_additive: self.percent_additive@,
            multiplicative: self.multiplicative@,
            override_value: self.override_value,
        }
    }
}

/// A combination rule of the caller's, to stand in for the default one: it
/// works a value out of the terms and the base value.
pub trait AggregatorExecutor<V: Scalar>: Send + Sync {
    fn execute(&self, terms: &AggregatorTerms<V>, base_value: V) -> V;
}

/// Adds the numbers of `terms` to `start`, first to last.
fn running_sum<V: Scalar>(start: V, terms: &Vec<AppliedModifier<V>>) -> (total: V)
    ensures
        is_running_sum(start, values_of(terms@), total),
{
    let mut total = start;
    let ghost mut partial: Seq<V> = seq![start];
    let mut k: usize = 0;
    while k < terms.len()
        invariant
            k <= terms.len(),
            partial.len() == k + 1,
            partial[0] == start,
            partial.last() == total,
            forall|j: int|
                0 <= j < k ==> is_sum(partial[j], values_of(terms@)[j], #[trigger] partial[j + 1]),
        decreases terms.len() - k,
    {
        let ghost before = partial;
        total = total.plus(terms[k].get_value());
        proof {
            partial = before.push(total);
            assert forall|j: int| 0 <= j < k + 1 implies is_sum(
                partial[j],
                values_of(terms@)[j],
                #[trigger] partial[j + 1],
            ) by {
                if j < k {
                    assert(partial[j] == before[j]);
                    assert(partial[j + 1] == before[j + 1]);
                }
            }
        }
        k += 1;
    }
    proof {
        assert(is_sum_trace(start, values_of(terms@), partial));
    }
    total
}

/// Multiplies `start` by the numbers of `factors`, first to last.
fn running_product<V: Scalar>(start: V, factors: &Vec<AppliedModifier<V>>) -> (total: V)
    ensures
        is_running_product(start, values_of(factors@), total),
{
    let mut total = start;
    let ghost mut partial: Seq<V> = seq![start];
    let mut k: usize = 0;
    while k < factors.len()
        invariant
            k <= factors.len(),
            partial.len() == k + 1,
            partial[0] == start,
            partial.last() == total,
            forall|j: int|
                0 <= j < k ==> is_product(
                    partial[j],
                    values_of(factors@)[j],
                    #[trigger] partial[j + 1],
                ),
        decreases factors.len() - k,
    {
        let ghost before = partial;
        total = total.times(factors[k].get_value());
        proof {
            partial = before.push(total);
            assert forall|j: int| 0 <= j < k + 1 implies is_product(
                partial[j],
                values_of(factors@)[j],
                #[trigger] partial[j + 1],
            ) by {
                if j < k {
                    assert(partial[j] == before[j]);
                    assert(partial[j + 1] == before[j + 1]);
                }
            }
        }
        k += 1;
    }
    proof {
        assert(is_product_trace(start, values_of(factors@), partial));
    }
    total
}

/// The default combination: an override wins; otherwise
/// `(base + additive terms) * (1 + percent terms) * multiplicative terms`.
pub fn default_executor<V: Scalar>(terms: &AggregatorTerms<V>, base_value: V) -> (value: V)
    ensures
        terms@.default_outcome(base_value, value),
{
    if let Some(override_value) = terms.override_value {
        return override_value.get_value();
    }
    let sum = running_sum(base_value, &terms.additive);
    let zero = V::zero();
    let percent = running_sum(zero, &terms.percent_additive);
    let one = V::one();
    let factor = one.plus(percent);
    let scaled = sum.times(factor);
    let value = running_product(scaled, &terms.multiplicative);
    proof {
        let view = terms@;
        assert(view.additive == terms.additive@);
        assert(view.percent_additive == terms.percent_additive@);
        assert(view.multiplicative == terms.multiplicative@);
        assert({
            &&& is_running_sum(base_value, values_of(view.additive), sum)
            &&& is_zero(zero)
            &&& is_running_sum(zero, values_of(view.percent_additive), percent)
            &&& is_one(one)
            &&& is_sum(one, percent, factor)
            &&& is_product(sum, factor, scaled)
            &&& is_running_product(scaled, values_of(view.multiplicative), value)
        });
    }
    value
}

/// Takes out of `terms` every term that was put there under `handle`.
fn retain_other_handles<V: Scalar>(terms: &mut Vec<AppliedModifier<V>>, handle: ActiveEffectHandle)
    ensures
        final(terms)@ == without_handle(old(terms)@, handle),
{
    let mut kept: Vec<AppliedModifier<V>> = Vec::new();
    let mut k: usize = 0;
    while k < terms.len()
        invariant
            k <= terms.len(),
            terms@ == old(terms)@,
            kept@ == without_handle(terms@.take(k as int), handle),
        decreases terms.len() - k,
    {
        let term = terms[k];
        proof {
            assert(terms@.take(k + 1).drop_last() =~= terms@.take(k as int));
            assert(terms@.take(k + 1).last() == term);
        }
        if term.get_handle() != handle {
            kept.push(term);
        }
        k += 1;
    }
    proof {
        assert(terms@.take(terms.len() as int) =~= terms@);
    }
    *terms = kept;
}

/// The modifiers at work on one attribute: additive, percent and
/// multiplicative terms, each with the handle of the effect that put it
/// there, at most one override, and the rule that combines them.
#[verifier::reject_recursive_types(V)]
pub struct Aggregator<V: Scalar> {
    terms: AggregatorTerms<V>,
    executor: Option<Box<dyn AggregatorExecutor<V>>>,
}

impl<V: Scalar> View for Aggregator<V> {
    type V = AggregatorView<V>;

    closed spec fn view(&self) -> AggregatorView<V> {
        AggregatorView { terms: self.terms@, custom_executor: self.executor.is_some() }
    }
}

impl<V: Scalar> Aggregator<V> {
    /// An aggregator with no term, no override and the default rule.
    pub fn new() -> (aggregator: Self)
        ensures
            aggregator@.terms == TermsView::<V>::emptied(),
            !aggregator@.custom_executor,
    {
        Self {
            terms: AggregatorTerms {
                additive: Vec::new(),
                percent_additive: Vec::new(),
                multiplicative: Vec::new(),
                override_value: None,
            },
            executor: None,
        }
    }

    /// The terms, as a combination rule reads them.
    pub fn terms(&self) -> (terms: &AggregatorTerms<V>)
        ensures
            terms@ == self@.terms,
    {
        &self.terms
    }

    /// Puts `executor` in the place of the rule in use; without one the rule
    /// in use stays.
    pub fn set_executor(&mut self, executor: Option<Box<dyn AggregatorExecutor<V>>>)
        ensures
            final(self)@.terms == old(self)@.terms,
            final(self)@.custom_executor == (old(self)@.custom_executor || executor.is_some()),
    {
        if let Some(executor) = executor {
            self.executor = Some(executor);
        }
    }

    /// Applies `spec` under `handle`.
    pub fn apply_modifier_spec(&mut self, spec: &ModifierSpec<V>, handle: ActiveEffectHandle)
        ensures
            final(self)@.terms == old(self)@.terms.applied(*spec, handle),
            final(self)@.custom_executor == old(self)@.custom_executor,
    {
        let applied_modifier = AppliedModifier::new(handle, spec.get_value());
        match spec.get_operation() {
            ModifierOperation::Add => self.terms.additive.push(applied_modifier),
            ModifierOperation::Multiply => self.terms.multiplicative.push(applied_modifier),
            ModifierOperation::PercentAdd => self.terms.percent_additive.push(applied_modifier),
            ModifierOperation::Override => self.terms.override_value = Some(applied_modifier),
        }
    }

    /// Takes out everything that was put there under `handle`.
    pub fn remove_modifier_by_handle(&mut self, handle: ActiveEffectHandle)
        ensures
            final(self)@.terms == old(self)@.terms.removed(handle),
            final(self)@.custom_executor == old(self)@.custom_executor,
    {
        retain_other_handles(&mut self.terms.additive, handle);
        retain_other_handles(&mut self.terms.percent_additive, handle);
        retain_other_handles(&mut self.terms.multiplicative, handle);
        if let Some(override_modifier) = self.terms.override_value {
            if override_modifier.get_handle() == handle {
                self.terms.override_value = None;
            }
        }
    }

    /// Takes out every term and the override.
    pub fn reset(&mut self)
        ensures
            final(self)@.terms == TermsView::<V>::emptied(),
            final(self)@.custom_executor == old(self)@.custom_executor,
    {
        self.terms.additive.clear();
        self.terms.percent_additive.clear();
        self.terms.multiplicative.clear();
        self.terms.override_value = None;
    }

    /// The value that the terms make of `base_value`: the override where
    /// there is one, and otherwise what the rule in use combines them to.
    pub fn evaluate(&self, base_value: V) -> (value: V)
        ensures
            self@.can_evaluate_to(base_value, value),
    {
        if let Some(override_value) = self.terms.override_value {
            return override_value.get_value();
        }
        match &self.executor {
            Some(executor) => executor.execute(&self.terms, base_value),
            None => default_executor(&self.terms, base_value),
        }
    }
}

impl<V: Scalar> Default for Aggregator<V> {
    fn default() -> (aggregator: Self)
        ensures
            aggregator@.terms == TermsView::<V>::emptied(),
            !aggregator@.custom_executor,
    {
        Self::new()
    }
}

} // verus!
