use bevy_tools::{
    default_executor, ActiveEffectHandle, Aggregator, AggregatorExecutor, AggregatorTerms,
    Attribute, AttributeId, AttributeIdManager, AttributeIdRegister, AttributeSet, ModifierOperation,
    ModifierSpec, Scalar, UniqueNamePool, ATTRIBUTE_SET_SIZE,
};

#[derive(Debug, Clone, Copy, PartialEq)]
struct Real(f64);

impl Scalar for Real {
    fn zero() -> Self {
        Real(0.0)
    }

    fn one() -> Self {
        Real(1.0)
    }

    fn plus(self, rhs: Self) -> Self {
        Real(self.0 + rhs.0)
    }

    fn minus(self, rhs: Self) -> Self {
        Real(self.0 - rhs.0)
    }

    fn times(self, rhs: Self) -> Self {
        Real(self.0 * rhs.0)
    }

    fn at_least(self, rhs: Self) -> bool {
        self.0 >= rhs.0
    }

    fn greater_than(self, rhs: Self) -> bool {
        self.0 > rhs.0
    }

    fn less_than(self, rhs: Self) -> bool {
        self.0 < rhs.0
    }

    fn larger(self, rhs: Self) -> Self {
        Real(self.0.max(rhs.0))
    }

    fn smaller(self, rhs: Self) -> Self {
        Real(self.0.min(rhs.0))
    }
}

fn close(value: Real, expected: f64) -> bool {
    (value.0 - expected).abs() < 1e-9
}

fn spec(slot: u16, op: ModifierOperation, value: f64) -> ModifierSpec<Real> {
    ModifierSpec::new(AttributeId::new(slot), op, Real(value))
}

fn sample_aggregator() -> Aggregator<Real> {
    let mut aggregator = Aggregator::new();
    aggregator.apply_modifier_spec(&spec(0, ModifierOperation::Add, 5.0), ActiveEffectHandle(1));
    aggregator.apply_modifier_spec(&spec(0, ModifierOperation::Add, -2.0), ActiveEffectHandle(2));
    aggregator.apply_modifier_spec(&spec(0, ModifierOperation::PercentAdd, 0.1), ActiveEffectHandle(3));
    aggregator.apply_modifier_spec(&spec(0, ModifierOperation::Multiply, 2.0), ActiveEffectHandle(4));
    aggregator
}

#[test]
fn aggregator_combines_in_order() {
    let aggregator = sample_aggregator();
    let value = aggregator.evaluate(Real(10.0));
    assert!(close(value, 28.6));
    assert_eq!(value.0, ((10.0f64 + 5.0 - 2.0) * (1.0 + (0.0 + 0.1))) * 2.0);
    assert!(close(default_executor(aggregator.terms(), Real(10.0)), 28.6));
}

#[test]
fn aggregator_without_terms_returns_base() {
    let aggregator: Aggregator<Real> = Aggregator::default();
    assert_eq!(aggregator.evaluate(Real(7.5)), Real(7.5));
}

#[test]
fn aggregator_percent_terms_are_summed_before_scaling() {
    let mut aggregator = Aggregator::new();
    aggregator.apply_modifier_spec(&spec(0, ModifierOperation::PercentAdd, 0.5), ActiveEffectHandle(1));
    aggregator.apply_modifier_spec(&spec(0, ModifierOperation::PercentAdd, 0.25), ActiveEffectHandle(2));
    assert_eq!(aggregator.evaluate(Real(8.0)), Real(14.0));
}

#[test]
fn override_short_circuits_until_cleared() {
    let mut aggregator = sample_aggregator();
    aggregator.apply_modifier_spec(&spec(0, ModifierOperation::Override, 99.0), ActiveEffectHandle(9));
    assert_eq!(aggregator.evaluate(Real(10.0)), Real(99.0));
    assert_eq!(aggregator.evaluate(Real(-3.0)), Real(99.0));
    aggregator.apply_modifier_spec(&spec(0, ModifierOperation::Add, 100.0), ActiveEffectHandle(10));
    assert_eq!(aggregator.evaluate(Real(10.0)), Real(99.0));
    aggregator.remove_modifier_by_handle(ActiveEffectHandle(10));
    aggregator.remove_modifier_by_handle(ActiveEffectHandle(9));
    assert!(close(aggregator.evaluate(Real(10.0)), 28.6));
}

#[test]
fn later_override_replaces_earlier_one() {
    let mut aggregator: Aggregator<Real> = Aggregator::new();
    aggregator.apply_modifier_spec(&spec(0, ModifierOperation::Override, 99.0), ActiveEffectHandle(1));
    aggregator.apply_modifier_spec(&spec(0, ModifierOperation::Override, 50.0), ActiveEffectHandle(2));
    assert_eq!(aggregator.evaluate(Real(10.0)), Real(50.0));
    aggregator.remove_modifier_by_handle(ActiveEffectHandle(2));
    assert_eq!(aggregator.evaluate(Real(10.0)), Real(10.0));
}

#[test]
fn remove_by_handle_takes_every_term_of_that_handle() {
    let mut aggregator: Aggregator<Real> = Aggregator::new();
    let handle = ActiveEffectHandle(7);
    aggregator.apply_modifier_spec(&spec(0, ModifierOperation::Add, 1.0), handle);
    aggregator.apply_modifier_spec(&spec(0, ModifierOperation::Add, 2.0), ActiveEffectHandle(8));
    aggregator.apply_modifier_spec(&spec(0, ModifierOperation::Multiply, 3.0), handle);
    aggregator.apply_modifier_spec(&spec(0, ModifierOperation::PercentAdd, 1.0), handle);
    aggregator.apply_modifier_spec(&spec(0, ModifierOperation::Add, 4.0), handle);
    aggregator.remove_modifier_by_handle(handle);
    let terms = aggregator.terms();
    assert_eq!(terms.additive.len(), 1);
    assert_eq!(terms.additive[0].get_handle(), ActiveEffectHandle(8));
    assert_eq!(terms.additive[0].get_value(), Real(2.0));
    assert!(terms.percent_additive.is_empty());
    assert!(terms.multiplicative.is_empty());
    assert_eq!(aggregator.evaluate(Real(10.0)), Real(12.0));
}

#[test]
fn reset_empties_the_aggregator() {
    let mut aggregator = sample_aggregator();
    aggregator.apply_modifier_spec(&spec(0, ModifierOperation::Override, 99.0), ActiveEffectHandle(9));
    aggregator.reset();
    assert!(aggregator.terms().additive.is_empty());
    assert!(aggregator.terms().override_value.is_none());
    assert_eq!(aggregator.evaluate(Real(10.0)), Real(10.0));
}

struct Halving;

impl AggregatorExecutor<Real> for Halving {
    fn execute(&self, terms: &AggregatorTerms<Real>, base_value: Real) -> Real {
        let mut value = base_value.0;
        for term in &terms.additive {
            value += term.get_value().0 / 2.0;
        }
        Real(value)
    }
}

#[test]
fn custom_executor_replaces_the_default_rule() {
    let mut aggregator = sample_aggregator();
    aggregator.set_executor(None);
    assert!(close(aggregator.evaluate(Real(10.0)), 28.6));
    aggregator.set_executor(Some(Box::new(Halving)));
    assert_eq!(aggregator.evaluate(Real(10.0)), Real(11.5));
    aggregator.set_executor(None);
    assert_eq!(aggregator.evaluate(Real(10.0)), Real(11.5));
    aggregator.apply_modifier_spec(&spec(0, ModifierOperation::Override, 99.0), ActiveEffectHandle(9));
    assert_eq!(aggregator.evaluate(Real(10.0)), Real(99.0));
}

#[test]
fn attribute_round_trip_restores_value() {
    let mut set: AttributeSet<Real> = AttributeSet::new();
    let health = AttributeId::new(3);
    set.initialize_attribute(health, Real(10.0), None, None, None);
    set.apply_duration_modifier(&spec(3, ModifierOperation::Add, 5.0), ActiveEffectHandle(1));
    let before = set.get_value(health);
    assert_eq!(before, Some(Real(15.0)));
    let handle = ActiveEffectHandle(2);
    set.apply_duration_modifier(&spec(3, ModifierOperation::Multiply, 4.0), handle);
    assert_eq!(set.get_value(health), Some(Real(60.0)));
    set.remove_modifiers(handle);
    assert_eq!(set.get_value(health), before);
    assert_eq!(set.get_current_value(health), before);
}

#[test]
fn attribute_round_trip_fails_over_an_existing_override() {
    let mut set: AttributeSet<Real> = AttributeSet::new();
    let health = AttributeId::new(0);
    set.initialize_attribute(health, Real(10.0), None, None, None);
    set.apply_duration_modifier(&spec(0, ModifierOperation::Override, 99.0), ActiveEffectHandle(1));
    assert_eq!(set.get_value(health), Some(Real(99.0)));
    set.apply_duration_modifier(&spec(0, ModifierOperation::Override, 50.0), ActiveEffectHandle(2));
    set.remove_modifiers(ActiveEffectHandle(2));
    assert_eq!(set.get_value(health), Some(Real(10.0)));
}

#[test]
fn attribute_clamps_current_value() {
    let mut set: AttributeSet<Real> = AttributeSet::default();
    let health = AttributeId::new(1);
    set.initialize_attribute(health, Real(150.0), Some(Real(0.0)), Some(Real(100.0)), None);
    assert_eq!(set.get_current_value(health), Some(Real(100.0)));
    set.apply_instant_modifier(&spec(1, ModifierOperation::Add, -130.0));
    assert_eq!(set.get_current_value(health), Some(Real(0.0)));
    set.apply_instant_modifier(&spec(1, ModifierOperation::Override, 40.0));
    assert_eq!(set.get_current_value(health), Some(Real(40.0)));
    set.apply_instant_modifier(&spec(1, ModifierOperation::PercentAdd, 0.5));
    assert_eq!(set.get_current_value(health), Some(Real(60.0)));
    set.apply_instant_modifier(&spec(1, ModifierOperation::Multiply, 3.0));
    assert_eq!(set.get_current_value(health), Some(Real(100.0)));
}

#[test]
fn instant_modifier_does_not_enter_the_aggregator() {
    let mut attribute: Attribute<Real> = Attribute::new();
    attribute.init(Real(10.0), None, None, None);
    attribute.apply_instant_modifier(&spec(0, ModifierOperation::Add, 5.0));
    assert_eq!(attribute.get_current_value(), Real(15.0));
    attribute.make_dirty();
    attribute.recalculate();
    assert_eq!(attribute.get_current_value(), Real(10.0));
}

#[test]
fn attribute_is_lazy_until_recalculated() {
    let mut attribute: Attribute<Real> = Attribute::default();
    assert!(attribute.is_dirty());
    attribute.init(Real(10.0), None, None, None);
    assert!(!attribute.is_dirty());
    attribute.apply_modifier_spec(&spec(0, ModifierOperation::Add, 5.0), ActiveEffectHandle(1));
    assert!(attribute.is_dirty());
    attribute.recalculate();
    assert_eq!(attribute.get_current_value(), Real(15.0));
    attribute.reset_aggregator();
    attribute.recalculate();
    assert_eq!(attribute.get_current_value(), Real(10.0));
    assert_eq!(attribute.get_base_value(), Real(10.0));
    attribute.apply_modifier_spec(&spec(0, ModifierOperation::Add, 1.0), ActiveEffectHandle(2));
    attribute.remove_modifier_by_handle(ActiveEffectHandle(2));
    assert!(!attribute.is_dirty());
    assert_eq!(attribute.get_current_value(), Real(10.0));
}

#[test]
fn attribute_set_skips_missing_attributes() {
    let mut set: AttributeSet<Real> = AttributeSet::new();
    let missing = AttributeId::new(5);
    assert_eq!(set.get_value(missing), None);
    set.apply_instant_modifier(&spec(5, ModifierOperation::Add, 1.0));
    set.apply_duration_modifier(&spec(5, ModifierOperation::Add, 1.0), ActiveEffectHandle(1));
    set.apply_instant_modifier(&spec(9999, ModifierOperation::Add, 1.0));
    set.remove_modifiers(ActiveEffectHandle(1));
    set.recalculate_attribute(missing);
    set.recalculate_all();
    assert_eq!(set.get_current_value(missing), None);
    assert_eq!(set.get_current_value(AttributeId::new(9999)), None);
    assert_eq!(AttributeId::new((ATTRIBUTE_SET_SIZE - 1) as u16).to_index(), ATTRIBUTE_SET_SIZE - 1);
}

#[test]
fn attribute_registration_is_idempotent() {
    let mut pool = UniqueNamePool::default();
    let mut manager = AttributeIdManager::default();
    let mut register =
        AttributeIdRegister { unique_name_pool: &mut pool, attribute_id_manager: &mut manager };
    let health = register.request_or_register_attribute_id("Health").unwrap();
    let mana = register.request_or_register_attribute_id("Mana").unwrap();
    let again = register.request_or_register_attribute_id("Health").unwrap();
    assert_eq!(health, again);
    assert_ne!(health, mana);
    assert_eq!(health.to_index(), 0);
    assert_eq!(mana.to_index(), 1);
    assert_eq!(manager.attribute_count(), 2);
    let name = pool.new_name("Mana");
    assert_eq!(manager.get_attribute_id(name), Some(mana));
    assert_eq!(manager.register_id_internal(name), mana);
    let other = pool.new_name("Stamina");
    assert_eq!(manager.get_attribute_id(other), None);
}

#[test]
fn attribute_registration_stops_at_capacity() {
    let mut pool = UniqueNamePool::default();
    let mut manager = AttributeIdManager::default();
    let mut register =
        AttributeIdRegister { unique_name_pool: &mut pool, attribute_id_manager: &mut manager };
    for k in 0..ATTRIBUTE_SET_SIZE {
        let id = register.request_or_register_attribute_id(&format!("Attribute{}", k));
        assert_eq!(id.map(|id| id.to_index()), Some(k));
    }
    assert_eq!(register.request_or_register_attribute_id("OneTooMany"), None);
    assert_eq!(
        register.request_or_register_attribute_id("Attribute3").map(|id| id.to_index()),
        Some(3)
    );
}

#[test]
fn unique_names_are_interned_once() {
    let mut pool = UniqueNamePool::default();
    assert_eq!(pool.len(), 1);
    let empty = pool.new_name("");
    assert_eq!(empty.index(), 0);
    let first = pool.new_name("Ability.Fireball");
    let second = pool.new_name("Ability.Heal");
    let again = pool.new_name("Ability.Fireball");
    assert_eq!(first, again);
    assert_ne!(first, second);
    assert_eq!(first.index(), 1);
    assert_eq!(second.index(), 2);
    assert_eq!(pool.len(), 3);
    assert_eq!(pool.get_display_str(&first), "Ability.Fireball");
    assert_eq!(pool.get_display_str(&empty), "");
    pool.clear();
    assert_eq!(pool.len(), 1);
    assert_eq!(pool.get_display_str(&first), "");
    let reused = pool.new_name("Ability.Heal");
    assert_eq!(reused.index(), 1);
    assert_eq!(pool.get_display_str(&reused), "Ability.Heal");
}

#[test]
fn unique_name_pool_follows_the_given_hash() {
    let mut pool = UniqueNamePool::default();
    assert_eq!(pool.get_or_insert_hashed("first", 42), 1);
    assert_eq!(pool.get_or_insert_hashed("second", 43), 2);
    assert_eq!(pool.get_or_insert_hashed("third", 42), 1);
    assert_eq!(pool.get_or_insert_hashed("", 42), 0);
    assert_eq!(pool.len(), 3);
}
