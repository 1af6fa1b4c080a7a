use bevy_tools::{
    apply_gameplay_effect, apply_gameplay_effect_spec, check_tag_gate, roll_for_application,
    tick_gameplay_effects_system, AbilitySystemComponent, ActiveEffectHandle,
    ActiveEffectHandleGenerator, ActiveGameplayEffect, AttributeId, AttributeSet, EffectContext,
    EffectContextEntityType, EffectDuration, EffectDurationSpec, EffectPeriod, EffectPeriodSpec,
    EffectTags, GameplayEffect, GameplayEffectParams, GameplayEffectSpec, GameplayTag,
    GameplayTagContainer, GameplayTagManager, GameplayTagRegister, Modifier, ModifierMagnitude,
    ModifierMagnitudeCalculation, ModifierOperation, ModifierSpec, Scalar, StackingType,
    UniqueNamePool,
};
use std::sync::Arc;

#[derive(Debug, Clone, Copy, PartialEq)]
struct Real(f64);

impl Scalar for Real {
    fn zero() -> Self {
        Real(0.0)
    }

    fn one() -> Self {
        Real(1.0)
    }

    fn plus(self, rhs: Self) -> Self {
        Real(self.0 + rhs.0)
    }

    fn minus(self, rhs: Self) -> Self {
        Real(self.0 - rhs.0)
    }

    fn times(self, rhs: Self) -> Self {
        Real(self.0 * rhs.0)
    }

    fn at_least(self, rhs: Self) -> bool {
        self.0 >= rhs.0
    }

    fn greater_than(self, rhs: Self) -> bool {
        self.0 > rhs.0
    }

    fn less_than(self, rhs: Self) -> bool {
        self.0 < rhs.0
    }

    fn larger(self, rhs: Self) -> Self {
        Real(self.0.max(rhs.0))
    }

    fn smaller(self, rhs: Self) -> Self {
        Real(self.0.min(rhs.0))
    }
}

const HEALTH: u16 = 0;
const POWER: u16 = 1;

struct Actor {
    manager: GameplayTagManager,
    generator: ActiveEffectHandleGenerator,
    attributes: AttributeSet<Real>,
    tags: GameplayTagContainer,
    effects: AbilitySystemComponent<Real>,
    stunned: GameplayTag,
    burning: GameplayTag,
    immune: GameplayTag,
}

fn actor() -> Actor {
    let mut pool = UniqueNamePool::default();
    let mut manager = GameplayTagManager::default();
    let (stunned, burning, immune) = {
        let mut register =
            GameplayTagRegister { unique_name_pool: &mut pool, gameplay_tag_manager: &mut manager };
        (
            register.request_or_register_tag("State.Stunned").unwrap(),
            register.request_or_register_tag("State.Burning").unwrap(),
            register.request_or_register_tag("State.Immune").unwrap(),
        )
    };
    let mut attributes = AttributeSet::new();
    attributes.initialize_attribute(AttributeId::new(HEALTH), Real(100.0), None, None, None);
    attributes.initialize_attribute(AttributeId::new(POWER), Real(10.0), None, None, None);
    Actor {
        manager,
        generator: ActiveEffectHandleGenerator::default(),
        attributes,
        tags: GameplayTagContainer::new(),
        effects: AbilitySystemComponent::new(),
        stunned,
        burning,
        immune,
    }
}

fn flat(slot: u16, op: ModifierOperation, value: f64) -> Modifier<Real> {
    Modifier::new(AttributeId::new(slot), op, ModifierMagnitude::Flat(Real(value)))
}

fn effect(
    modifiers: Vec<Modifier<Real>>,
    duration: EffectDuration<Real>,
    period: Option<EffectPeriod<Real>>,
    probability: f64,
    tags: EffectTags,
) -> Arc<GameplayEffect<Real>> {
    Arc::new(GameplayEffect::new(
        modifiers,
        duration,
        period,
        Real(probability),
        StackingType::NoStacking,
        1,
        tags,
    ))
}

fn no_tags() -> EffectTags {
    EffectTags::new(vec![], vec![], vec![])
}

fn apply(actor: &mut Actor, definition: &Arc<GameplayEffect<Real>>, now: f64, roll: bool) {
    let mut params = GameplayEffectParams {
        tag_manager: &actor.manager,
        handle_gen: &mut actor.generator,
        source_attributes: None,
        attributes: &mut actor.attributes,
        tags: &mut actor.tags,
        asc: &mut actor.effects,
        time: Real(now),
    };
    apply_gameplay_effect(1, 1, definition, &mut params, 1, |_| roll);
}

fn tick(actor: &mut Actor, now: f64) {
    let mut params = GameplayEffectParams {
        tag_manager: &actor.manager,
        handle_gen: &mut actor.generator,
        source_attributes: None,
        attributes: &mut actor.attributes,
        tags: &mut actor.tags,
        asc: &mut actor.effects,
        time: Real(now),
    };
    tick_gameplay_effects_system(&mut params);
}

fn health(actor: &Actor) -> f64 {
    actor.attributes.get_current_value(AttributeId::new(HEALTH)).unwrap().0
}

fn duration(seconds: f64) -> EffectDuration<Real> {
    EffectDuration::Duration(ModifierMagnitude::Flat(Real(seconds)))
}

#[test]
fn instant_effect_changes_current_values_and_leaves_nothing_behind() {
    let mut actor = actor();
    let definition = effect(
        vec![flat(HEALTH, ModifierOperation::Add, -30.0), flat(HEALTH, ModifierOperation::Multiply, 2.0)],
        EffectDuration::Instant,
        None,
        1.0,
        EffectTags::new(vec![actor.burning], vec![], vec![]),
    );
    apply(&mut actor, &definition, 0.0, false);
    assert_eq!(health(&actor), 140.0);
    assert!(actor.effects.get_active_effects().is_empty());
    assert_eq!(actor.generator.0, 0);
    assert!(!actor.tags.has_tag(&actor.burning));
}

#[test]
fn gate_keeps_out_an_effect_whose_required_tag_is_missing() {
    let mut actor = actor();
    let definition = effect(
        vec![flat(HEALTH, ModifierOperation::Add, -30.0)],
        duration(5.0),
        None,
        1.0,
        EffectTags::new(vec![actor.burning], vec![actor.stunned], vec![]),
    );
    apply(&mut actor, &definition, 0.0, true);
    assert_eq!(health(&actor), 100.0);
    assert!(actor.effects.get_active_effects().is_empty());
    assert!(actor.tags.get().iter().all(|count| *count == 0));
    assert_eq!(actor.generator.0, 0);
    assert!(!check_tag_gate(definition.get_tags(), &actor.tags));

    actor.tags.add_tag(&actor.stunned, &actor.manager);
    assert!(check_tag_gate(definition.get_tags(), &actor.tags));
    apply(&mut actor, &definition, 0.0, true);
    assert_eq!(health(&actor), 70.0);
    assert_eq!(actor.effects.get_active_effects().len(), 1);
    assert!(actor.tags.has_tag(&actor.burning));
}

#[test]
fn gate_keeps_out_an_effect_whose_blocked_tag_is_held() {
    let mut actor = actor();
    let definition = effect(
        vec![flat(HEALTH, ModifierOperation::Add, -30.0)],
        EffectDuration::Instant,
        None,
        1.0,
        EffectTags::new(vec![], vec![], vec![actor.immune]),
    );
    actor.tags.add_tag(&actor.immune, &actor.manager);
    let counts: Vec<u16> = actor.tags.get().to_vec();
    apply(&mut actor, &definition, 0.0, true);
    assert_eq!(health(&actor), 100.0);
    assert_eq!(actor.tags.get(), &counts[..]);
    actor.tags.remove_tag(&actor.immune, &actor.manager);
    apply(&mut actor, &definition, 0.0, true);
    assert_eq!(health(&actor), 70.0);
}

#[test]
fn probability_gate_draws_only_below_certainty() {
    let mut actor = actor();
    let certain = effect(
        vec![flat(HEALTH, ModifierOperation::Add, -1.0)],
        EffectDuration::Instant,
        None,
        1.0,
        no_tags(),
    );
    let unlikely = effect(
        vec![flat(HEALTH, ModifierOperation::Add, -10.0)],
        EffectDuration::Instant,
        None,
        0.25,
        no_tags(),
    );
    apply(&mut actor, &certain, 0.0, false);
    assert_eq!(health(&actor), 99.0);
    apply(&mut actor, &unlikely, 0.0, false);
    assert_eq!(health(&actor), 99.0);
    apply(&mut actor, &unlikely, 0.0, true);
    assert_eq!(health(&actor), 89.0);

    let mut asked = Vec::new();
    assert!(roll_for_application(Real(1.5), |p: Real| {
        asked.push(p.0);
        false
    }));
    assert!(!roll_for_application(Real(0.5), |p: Real| {
        asked.push(p.0);
        false
    }));
    assert_eq!(asked, vec![0.5]);
}

#[test]
fn periodic_effect_ticks_and_expires() {
    let mut actor = actor();
    let definition = effect(
        vec![flat(HEALTH, ModifierOperation::Add, -5.0)],
        duration(3.0),
        Some(EffectPeriod::new(ModifierMagnitude::Flat(Real(1.0)), true)),
        1.0,
        EffectTags::new(vec![actor.burning], vec![], vec![]),
    );
    apply(&mut actor, &definition, 0.0, true);
    assert_eq!(actor.effects.get_active_effects().len(), 1);
    let running = &actor.effects.get_active_effects()[0];
    assert_eq!(running.get_handle(), ActiveEffectHandle(1));
    assert_eq!(running.get_last_period_tick_time(), Some(Real(0.0)));
    assert_eq!(running.get_start_time(), Real(0.0));
    assert!(actor.tags.has_tag(&actor.burning));
    assert_eq!(health(&actor), 95.0);

    tick(&mut actor, 0.5);
    assert_eq!(health(&actor), 95.0);
    tick(&mut actor, 1.0);
    assert_eq!(health(&actor), 90.0);
    assert_eq!(actor.effects.get_active_effects()[0].get_last_period_tick_time(), Some(Real(1.0)));
    tick(&mut actor, 1.5);
    assert_eq!(health(&actor), 90.0);
    tick(&mut actor, 2.25);
    assert_eq!(health(&actor), 85.0);
    assert_eq!(actor.effects.get_active_effects().len(), 1);
    tick(&mut actor, 3.0);
    assert!(actor.effects.get_active_effects().is_empty());
    assert!(!actor.tags.has_tag(&actor.burning));
    assert_eq!(health(&actor), 100.0);
    assert!(actor.attributes.get_value(AttributeId::new(HEALTH)) == Some(Real(100.0)));
}

#[test]
fn periodic_effect_without_first_tick_never_ticks() {
    let mut actor = actor();
    let definition = effect(
        vec![flat(POWER, ModifierOperation::Add, 1.0)],
        EffectDuration::Infinite,
        Some(EffectPeriod::new(ModifierMagnitude::Flat(Real(1.0)), false)),
        1.0,
        no_tags(),
    );
    apply(&mut actor, &definition, 0.0, true);
    let power = AttributeId::new(POWER);
    assert_eq!(actor.attributes.get_current_value(power), Some(Real(11.0)));
    assert_eq!(actor.effects.get_active_effects()[0].get_last_period_tick_time(), None);
    tick(&mut actor, 10.0);
    assert_eq!(actor.attributes.get_current_value(power), Some(Real(11.0)));
    assert_eq!(actor.effects.get_active_effects().len(), 1);
}

#[test]
fn period_of_zero_is_no_period() {
    let mut actor = actor();
    let definition = effect(
        vec![flat(POWER, ModifierOperation::Add, 1.0)],
        EffectDuration::Infinite,
        Some(EffectPeriod::new(ModifierMagnitude::Flat(Real(0.0)), true)),
        1.0,
        no_tags(),
    );
    apply(&mut actor, &definition, 0.0, true);
    let running = &actor.effects.get_active_effects()[0];
    assert_eq!(running.get_last_period_tick_time(), None);
    assert!(!running.can_period_tick(Real(5.0)));
}

#[test]
fn duration_effect_is_retired_in_order_with_others() {
    let mut actor = actor();
    let short = effect(
        vec![flat(POWER, ModifierOperation::Add, 5.0)],
        duration(1.0),
        None,
        1.0,
        EffectTags::new(vec![actor.stunned], vec![], vec![]),
    );
    let long = effect(
        vec![flat(POWER, ModifierOperation::Multiply, 2.0)],
        duration(10.0),
        None,
        1.0,
        EffectTags::new(vec![actor.burning], vec![], vec![]),
    );
    let forever = effect(
        vec![flat(POWER, ModifierOperation::PercentAdd, 0.5)],
        EffectDuration::Infinite,
        None,
        1.0,
        no_tags(),
    );
    apply(&mut actor, &short, 0.0, true);
    apply(&mut actor, &long, 0.0, true);
    apply(&mut actor, &forever, 0.5, true);
    let power = AttributeId::new(POWER);
    assert_eq!(actor.attributes.get_current_value(power), Some(Real(45.0)));
    assert_eq!(actor.generator.0, 3);
    tick(&mut actor, 0.75);
    assert_eq!(actor.effects.get_active_effects().len(), 3);
    tick(&mut actor, 1.0);
    let handles: Vec<ActiveEffectHandle> =
        actor.effects.get_active_effects().iter().map(|effect| effect.get_handle()).collect();
    assert_eq!(handles, vec![ActiveEffectHandle(2), ActiveEffectHandle(3)]);
    assert_eq!(actor.attributes.get_current_value(power), Some(Real(30.0)));
    assert!(!actor.tags.has_tag(&actor.stunned));
    assert!(actor.tags.has_tag(&actor.burning));
    tick(&mut actor, 100.0);
    assert_eq!(actor.effects.get_active_effects().len(), 1);
    assert_eq!(actor.attributes.get_current_value(power), Some(Real(15.0)));
    assert!(!actor.tags.has_tag(&actor.burning));
}

struct ScaledByLevel;

impl ModifierMagnitudeCalculation<Real> for ScaledByLevel {
    fn calculate(&self, context: &EffectContext<'_, Real>) -> Real {
        let power = context
            .get_attribute_current_value(EffectContextEntityType::Source, AttributeId::new(POWER))
            .unwrap_or(Real(0.0));
        let health = context
            .get_attribute_current_value(EffectContextEntityType::Target, AttributeId::new(HEALTH))
            .unwrap_or(Real(0.0));
        Real(power.0 * context.level as f64 + health.0 / 100.0)
    }
}

#[test]
fn magnitudes_are_resolved_once_when_the_effect_is_applied() {
    let mut actor = actor();
    let mut source: AttributeSet<Real> = AttributeSet::new();
    source.initialize_attribute(AttributeId::new(POWER), Real(4.0), None, None, None);
    let definition = effect(
        vec![Modifier::new(
            AttributeId::new(HEALTH),
            ModifierOperation::Add,
            ModifierMagnitude::Calculated(Box::new(ScaledByLevel)),
        )],
        EffectDuration::Duration(ModifierMagnitude::Calculated(Box::new(ScaledByLevel))),
        None,
        1.0,
        no_tags(),
    );
    {
        let mut params = GameplayEffectParams {
            tag_manager: &actor.manager,
            handle_gen: &mut actor.generator,
            source_attributes: Some(&source),
            attributes: &mut actor.attributes,
            tags: &mut actor.tags,
            asc: &mut actor.effects,
            time: Real(0.0),
        };
        apply_gameplay_effect(7, 1, &definition, &mut params, 3, |_| true);
    }
    let running = &actor.effects.get_active_effects()[0];
    let spec = running.get_spec();
    assert_eq!(spec.get_modifier_specs().len(), 1);
    assert_eq!(spec.get_modifier_specs()[0].get_value(), Real(13.0));
    assert_eq!(spec.get_modifier_specs()[0].get_id(), AttributeId::new(HEALTH));
    assert_eq!(spec.get_modifier_specs()[0].get_operation(), ModifierOperation::Add);
    assert_eq!(spec.get_level(), 3);
    assert!(spec.get_duration_spec().is_duration());
    assert_eq!(running.get_time_remaining(Real(3.0)), Some(Real(10.0)));
    assert_eq!(health(&actor), 113.0);
    source.initialize_attribute(AttributeId::new(POWER), Real(400.0), None, None, None);
    tick(&mut actor, 1.0);
    assert_eq!(health(&actor), 113.0);
    assert_eq!(actor.effects.get_active_effects()[0].get_spec().get_modifier_specs()[0].get_value(), Real(13.0));
}

#[test]
fn context_reads_the_source_as_the_target_when_they_are_one() {
    let mut actor = actor();
    let definition = effect(
        vec![Modifier::new(
            AttributeId::new(HEALTH),
            ModifierOperation::Override,
            ModifierMagnitude::Calculated(Box::new(ScaledByLevel)),
        )],
        EffectDuration::Instant,
        None,
        1.0,
        no_tags(),
    );
    apply(&mut actor, &definition, 0.0, true);
    assert_eq!(health(&actor), 11.0);
}

#[test]
fn context_without_actor_or_table_reads_nothing() {
    let mut set: AttributeSet<Real> = AttributeSet::new();
    set.initialize_attribute(AttributeId::new(HEALTH), Real(5.0), None, None, None);
    let context = EffectContext {
        source: None,
        target: Some(2),
        source_attributes: Some(&set),
        target_attributes: Some(&set),
        level: 1,
    };
    let id = AttributeId::new(HEALTH);
    assert_eq!(context.get_attribute_current_value(EffectContextEntityType::Source, id), None);
    assert_eq!(context.get_attribute_current_value(EffectContextEntityType::Target, id), Some(Real(5.0)));
    assert_eq!(
        context.get_attribute_current_value(EffectContextEntityType::Target, AttributeId::new(POWER)),
        None
    );
}

fn resolved(
    definition: &Arc<GameplayEffect<Real>>,
    duration: EffectDurationSpec<Real>,
    period: Option<EffectPeriodSpec<Real>>,
) -> GameplayEffectSpec<Real> {
    GameplayEffectSpec::new(
        definition.clone(),
        vec![ModifierSpec::new(AttributeId::new(HEALTH), ModifierOperation::Add, Real(-1.0))],
        duration,
        period,
        StackingType::NoStacking,
        1,
        1,
    )
}

#[test]
fn expiry_follows_the_kind_of_duration() {
    let definition = effect(vec![], EffectDuration::Instant, None, 1.0, no_tags());
    let handle = ActiveEffectHandle(1);
    let instant = ActiveGameplayEffect::new(
        handle,
        resolved(&definition, EffectDurationSpec::Instant, None),
        Real(2.0),
        None,
    );
    let timed = ActiveGameplayEffect::new(
        handle,
        resolved(&definition, EffectDurationSpec::Duration(Real(3.0)), None),
        Real(2.0),
        None,
    );
    let infinite = ActiveGameplayEffect::new(
        handle,
        resolved(&definition, EffectDurationSpec::Infinite, None),
        Real(2.0),
        None,
    );
    assert!(instant.is_expired(Real(2.0)));
    assert!(!timed.is_expired(Real(4.9)));
    assert!(timed.is_expired(Real(5.0)));
    assert!(!infinite.is_expired(Real(1.0e12)));
    assert_eq!(instant.get_time_remaining(Real(3.0)), None);
    assert_eq!(timed.get_time_remaining(Real(3.0)), Some(Real(2.0)));
    assert_eq!(infinite.get_time_remaining(Real(3.0)), None);
    assert!(EffectDurationSpec::<Real>::Infinite.is_infinite());
    assert!(EffectDurationSpec::<Real>::Instant.is_instant());
    assert!(!EffectDurationSpec::Duration(Real(1.0)).is_instant());
}

#[test]
fn period_tick_needs_a_period_and_an_earlier_tick() {
    let definition = effect(vec![], EffectDuration::Infinite, None, 1.0, no_tags());
    let period = Some(EffectPeriodSpec::new(Real(2.0), true));
    let mut running = ActiveGameplayEffect::new(
        ActiveEffectHandle(1),
        resolved(&definition, EffectDurationSpec::Infinite, period),
        Real(0.0),
        None,
    );
    assert!(!running.can_period_tick(Real(100.0)));
    running.set_last_period_tick_time(Real(1.0));
    assert!(!running.can_period_tick(Real(2.9)));
    assert!(running.can_period_tick(Real(3.0)));
    let plain = ActiveGameplayEffect::new(
        ActiveEffectHandle(2),
        resolved(&definition, EffectDurationSpec::Infinite, None),
        Real(0.0),
        Some(Real(0.0)),
    );
    assert!(!plain.can_period_tick(Real(100.0)));
    assert_eq!(period.unwrap().get_period(), Real(2.0));
    assert!(period.unwrap().get_execute_on_applied());
}

#[test]
fn applying_a_resolved_spec_registers_the_effect() {
    let mut actor = actor();
    let definition = effect(
        vec![],
        EffectDuration::Infinite,
        None,
        1.0,
        EffectTags::new(vec![actor.stunned], vec![], vec![]),
    );
    let spec = resolved(&definition, EffectDurationSpec::Duration(Real(4.0)), None);
    assert_eq!(spec.get_granted_tags(), &[actor.stunned]);
    assert!(spec.get_required_tags().is_empty());
    assert!(spec.get_blocked_tags().is_empty());
    assert!(spec.get_asset_tags().is_empty());
    assert!(spec.get_remove_effects_with_tags().is_empty());
    let mut params = GameplayEffectParams {
        tag_manager: &actor.manager,
        handle_gen: &mut actor.generator,
        source_attributes: None,
        attributes: &mut actor.attributes,
        tags: &mut actor.tags,
        asc: &mut actor.effects,
        time: Real(6.0),
    };
    apply_gameplay_effect_spec(spec, &mut params);
    assert_eq!(health(&actor), 99.0);
    assert_eq!(actor.effects.get_active_effects()[0].get_start_time(), Real(6.0));
    assert!(actor.tags.has_tag(&actor.stunned));
}

#[test]
fn handles_are_never_repeated() {
    let mut generator = ActiveEffectHandleGenerator::default();
    let first = generator.generate();
    let second = generator.generate();
    let third = generator.generate();
    assert_eq!(first, ActiveEffectHandle(1));
    assert_eq!(second, ActiveEffectHandle(2));
    assert_eq!(third, ActiveEffectHandle(3));
}

#[test]
fn effect_table_removes_by_handle() {
    let definition = effect(vec![], EffectDuration::Infinite, None, 1.0, no_tags());
    let mut table: AbilitySystemComponent<Real> = AbilitySystemComponent::default();
    for handle in [4u64, 5, 6, 5] {
        table.add_active_effect(ActiveGameplayEffect::new(
            ActiveEffectHandle(handle),
            resolved(&definition, EffectDurationSpec::Infinite, None),
            Real(0.0),
            None,
        ));
    }
    table.set_last_period_tick_time(2, Real(9.0));
    table.remove_active_effects(&[ActiveEffectHandle(5), ActiveEffectHandle(40)]);
    let handles: Vec<u64> = table.get_active_effects().iter().map(|effect| effect.get_handle().0).collect();
    assert_eq!(handles, vec![4, 6]);
    assert_eq!(table.get_active_effects()[1].get_last_period_tick_time(), Some(Real(9.0)));
    table.remove_active_effects(&[]);
    assert_eq!(table.get_active_effects().len(), 2);
}
