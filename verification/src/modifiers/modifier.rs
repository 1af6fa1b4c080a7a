use vstd::prelude::*;
use crate::attributes::attribute_id_manager::AttributeId;
use crate::gameplay_effects::active_gameplay_effect::ActiveEffectHandle;
use crate::gameplay_effects::gameplay_effect_context::EffectContext;
use crate::scalar::Scalar;

verus! {

/// How a modifier's number enters an attribute's value.
#[derive(Debug, Clone, Copy, PartialEq, Eq, Structural)]
pub enum ModifierOperation {
    Add,
    PercentAdd,
    Multiply,
    Override,
}

/// A rule that works a magnitude out of the circumstances in which an effect
/// is applied.
pub trait ModifierMagnitudeCalculation<V: Scalar>: Send + Sync {
    fn calculate(&self, context: &EffectContext<'_, V>) -> V
        requires
            context.wf(),
    ;
}

/// A magnitude as authored: a number, or a rule that yields one.
#[verifier::reject_recursive_types(V)]
pub enum ModifierMagnitude<V: Scalar> {
    Flat(V),
    Calculated(Box<dyn ModifierMagnitudeCalculation<V>>),
}

impl<V: Scalar> ModifierMagnitude<V> {
    /// Whether `value` can be what this magnitude comes to: an authored
    /// number comes to itself, a rule to whatever it yields.
    pub open spec fn can_resolve_to(&self, value: V) -> bool {
        match self {
            ModifierMagnitude::Flat(flat) => value == *flat,
            ModifierMagnitude::Calculated(_) => true,
        }
    }

    /// What the magnitude comes to in `context`.
    pub fn resolve(&self, context: &EffectContext<'_, V>) -> (value: V)
        requires
            context.wf(),
        ensures
            self.can_resolve_to(value),
    {
        match self {
            ModifierMagnitude::Flat(value) => *value,
            ModifierMagnitude::Calculated(calc) => calc.calculate(context),
        }
    }
}

/// A modifier as authored: the attribute it is for, how it enters the value,
/// and its magnitude.
#[verifier::reject_recursive_types(V)]
pub struct Modifier<V: Scalar> {
    id: AttributeId,
    op: ModifierOperation,
    magnitude: ModifierMagnitude<V>,
}

impl<V: Scalar> Modifier<V> {
    /// The attribute the modifier is for.
    pub closed spec fn id(&self) -> AttributeId {
        self.id
    }

    /// How the modifier enters the value.
    pub closed spec fn operation(&self) -> ModifierOperation {
        self.op
    }

    /// The magnitude of the modifier, as authored.
    pub closed spec fn magnitude(&self) -> ModifierMagnitude<V> {
        self.magnitude
    }

    /// Whether `spec` can be what this modifier resolves to: same attribute,
    /// same operation, and a number that the magnitude can come to.
    pub open spec fn can_resolve_to(&self, spec: ModifierSpec<V>) -> bool {
        &&& spec.id == self.id()
        &&& spec.op == self.operation()
        &&& self.magnitude().can_resolve_to(spec.value)
    }

    pub fn new(id: AttributeId, op: ModifierOperation, magnitude: ModifierMagnitude<V>) -> (modifier:
        Self)
        ensures
            modifier.id() == id,
            modifier.operation() == op,
            modifier.magnitude() == magnitude,
    {
        Modifier { id, op, magnitude }
    }

    /// Resolves the modifier in `context`: its magnitude is worked out once.
    pub fn make_spec(&self, context: &EffectContext<'_, V>) -> (spec: ModifierSpec<V>)
        requires
            context.wf(),
        ensures
            self.can_resolve_to(spec),
    {
        let final_value = self.magnitude.resolve(context);
        ModifierSpec { id: self.id, op: self.op, value: final_value }
    }
}

/// A resolved modifier: the attribute it is for, how it enters the value, and
/// its number.
#[derive(Debug, Clone, Copy)]
pub struct ModifierSpec<V: Scalar> {
    pub id: AttributeId,
    pub op: ModifierOperation,
    pub value: V,
}

impl<V: Scalar> ModifierSpec<V> {
    pub fn new(id: AttributeId, op: ModifierOperation, value: V) -> (spec: Self)
        ensures
            spec == (ModifierSpec { id, op, value }),
    {
        ModifierSpec { id, op, value }
    }

    pub fn get_id(&self) -> (id: AttributeId)
        ensures
            id == self.id,
    {
        self.id
    }

    pub fn get_operation(&self) -> (op: ModifierOperation)
        ensures
            op == self.op,
    {
        self.op
    }

    pub fn get_value(&self) -> (value: V)
        ensures
            value == self.value,
    {
        self.value
    }
}

/// A number at work in an aggregator, with the handle of the effect that put
/// it there.
#[derive(Debug, Clone, Copy)]
pub struct AppliedModifier<V: Scalar> {
    pub handle: ActiveEffectHandle,
    pub value: V,
}

impl<V: Scalar> AppliedModifier<V> {
    pub fn new(handle: ActiveEffectHandle, value: V) -> (applied: Self)
        ensures
            applied == (AppliedModifier { handle, value }),
    {
        AppliedModifier { handle, value }
    }

    pub fn get_handle(&self) -> (handle: ActiveEffectHandle)
        ensures
            handle == self.handle,
    {
        self.handle
    }

    pub fn get_value(&self) -> (value: V)
        ensures
            value == self.value,
    {
        self.value
    }
}

} // verus!
