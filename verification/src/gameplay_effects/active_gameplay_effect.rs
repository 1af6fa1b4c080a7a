use std::sync::Arc;
use vstd::prelude::*;
use crate::ability_system::ability_system_component::{without_handles, AbilitySystemComponent};
use crate::attributes::attribute_set::{
    table_drops_handle, table_takes_instants, table_takes_terms, AttributeSet, AttributeSetView,
};
use crate::gameplay_effects::gameplay_effect::{EffectTags, GameplayEffect};
use crate::gameplay_effects::gameplay_effect_context::EffectContext;
use crate::gameplay_effects::gameplay_effect_spec::{
    is_periodic, EffectDurationSpec, EffectPeriodSpec, GameplayEffectSpec,
};
use crate::gameplay_tags::gameplay_tag_bits::tags_in_range;
use crate::gameplay_tags::gameplay_tag_container::{
    counts_after_adds, counts_after_removes, GameplayTagContainer,
};
use crate::gameplay_tags::gameplay_tag_manager::{is_active, GameplayTagManager};
use crate::scalar::{has_elapsed, is_difference, is_elapsed, is_less_than, is_one, Scalar};

verus! {

/// The name of one running effect: a number that is handed out once.
#[derive(Debug, Clone, Copy, PartialEq, Eq, Hash, Structural)]
pub struct ActiveEffectHandle(pub u64);

/// `remaining` can come of asking how much of `span` is left at `now` when
/// the span began at `since`.
pub open spec fn is_remaining<V: Scalar>(now: V, since: V, span: V, remaining: V) -> bool {
    exists|passed: V| #[trigger] is_difference(now, since, passed) && is_difference(span, passed, remaining)
}

/// An effect that runs on an actor: its handle, what it resolved to, when it
/// began, and when it last acted. The inhibition mark is kept for effects
/// that are to rest without being removed; nothing sets or reads it yet.
#[verifier::reject_recursive_types(V)]
pub struct ActiveGameplayEffect<V: Scalar> {
    pub handle: ActiveEffectHandle,
    pub spec: GameplayEffectSpec<V>,
    pub start_time: V,
    pub last_period_tick_time: Option<V>,
    pub _is_inhibited: bool,
}

impl<V: Scalar> ActiveGameplayEffect<V> {
    /// Whether `expired` can come of asking at `current_time` whether the
    /// effect is over: an instant effect always is, an infinite one never,
    /// one with a span when the span has passed since it began.
    pub open spec fn expiry_outcome(&self, current_time: V, expired: bool) -> bool {
        match self.spec.duration_spec {
            EffectDurationSpec::Instant => expired,
            EffectDurationSpec::Duration(span) => is_elapsed(
                current_time,
                self.start_time,
                span,
                expired,
            ),
            EffectDurationSpec::Infinite => !expired,
        }
    }

    /// Whether `remaining` can come of asking at `current_time` how much of
    /// the effect's span is left: only an effect with a span has an answer.
    pub open spec fn remaining_outcome(&self, current_time: V, remaining: Option<V>) -> bool {
        match self.spec.duration_spec {
            EffectDurationSpec::Duration(span) => remaining matches Some(left) && is_remaining(
                current_time,
                self.start_time,
                span,
                left,
            ),
            _ => remaining.is_none(),
        }
    }

    /// Whether `due` can come of asking at `current_time` whether the effect
    /// is to act again: only an effect that has a period greater than zero
    /// and has acted before can be due, and it is when the period has passed
    /// since it last acted.
    pub open spec fn tick_outcome(&self, current_time: V, due: bool) -> bool {
        match (self.spec._period_spec, self.last_period_tick_time) {
            (Some(period), Some(last)) => exists|periodic: bool| #[trigger]
                is_periodic(period._period, periodic) && if periodic {
                    is_elapsed(current_time, last, period._period, due)
                } else {
                    !due
                },
            _ => !due,
        }
    }

    pub fn new(
        handle: ActiveEffectHandle,
        spec: GameplayEffectSpec<V>,
        start_time: V,
        last_period_tick_time: Option<V>,
    ) -> (effect: Self)
        ensures
            effect == (ActiveGameplayEffect {
                handle,
                spec,
                start_time,
                last_period_tick_time,
                _is_inhibited: false,
            }),
    {
        Self { handle, spec, start_time, last_period_tick_time, _is_inhibited: false }
    }

    /// Whether the effect is over at `current_time`.
    pub fn is_expired(&self, current_time: V) -> (expired: bool)
        ensures
            self.expiry_outcome(current_time, expired),
    {
        match *self.spec.get_duration_spec() {
            EffectDurationSpec::Instant => true,
            EffectDurationSpec::Duration(duration) => has_elapsed(
                current_time,
                self.start_time,
                duration,
            ),
            EffectDurationSpec::Infinite => false,
        }
    }

    /// How much of the effect's span is left at `current_time`.
    pub fn get_time_remaining(&self, current_time: V) -> (remaining: Option<V>)
        ensures
            self.remaining_outcome(current_time, remaining),
    {
        match *self.spec.get_duration_spec() {
            EffectDurationSpec::Instant => None,
            EffectDurationSpec::Duration(duration) => {
                let passed = current_time.minus(self.start_time);
                let left = duration.minus(passed);
                proof {
                    assert(is_difference(current_time, self.start_time, passed) && is_difference(
                        duration,
                        passed,
                        left,
                    ));
                }
                Some(left)
            },
            EffectDurationSpec::Infinite => None,
        }
    }

    pub fn get_handle(&self) -> (handle: ActiveEffectHandle)
        ensures
            handle == self.handle,
    {
        self.handle
    }

    pub fn get_spec(&self) -> (spec: &GameplayEffectSpec<V>)
        ensures
            *spec == self.spec,
    {
        &self.spec
    }

    pub fn get_start_time(&self) -> (time: V)
        ensures
            time == self.start_time,
    {
        self.start_time
    }

    pub fn set_last_period_tick_time(&mut self, time: V)
        ensures
            *final(self) == (ActiveGameplayEffect {
                last_period_tick_time: Some(time),
                ..*old(self)
            }),
    {
        self.last_period_tick_time = Some(time);
    }

    pub fn get_last_period_tick_time(&self) -> (time: Option<V>)
        ensures
            time == self.last_period_tick_time,
    {
        self.last_period_tick_time
    }

    /// Whether the effect is to act again at `current_time`.
    pub fn can_period_tick(&self, current_time: V) -> (due: bool)
        ensures
            self.tick_outcome(current_time, due),
    {
        match (self.spec.get_period_spec(), self.last_period_tick_time) {
            (Some(period_spec), Some(last_period_tick_time)) => {
                let periodic = period_spec.is_periodic();
                if periodic {
                    has_elapsed(current_time, last_period_tick_time, period_spec.get_period())
                } else {
                    false
                }
            },
            _ => false,
        }
    }
}

/// Hands out handles: each is one more than the one before it.
#[derive(Default)]
pub struct ActiveEffectHandleGenerator(pub u64);

impl ActiveEffectHandleGenerator {
    /// The next handle: one more than the last one handed out.
    pub fn generate(&mut self) -> (handle: ActiveEffectHandle)
        requires
            old(self).0 < u64::MAX,
        ensures
            final(self).0 == old(self).0 + 1,
            handle.0 == old(self).0 + 1,
    {
        self.0 += 1;
        ActiveEffectHandle(self.0)
    }
}

/// What the effect runtime holds of one actor: its attributes, how many times
/// it holds each tag, the effects that run on it, and the last handle that
/// was handed out.
#[verifier::reject_recursive_types(V)]
pub struct ActorState<V: Scalar> {
    pub attributes: AttributeSetView<V>,
    pub tag_counts: Seq<u16>,
    pub effects: Seq<ActiveGameplayEffect<V>>,
    pub last_handle: u64,
}

/// What an application works on: the tag registry, the handle generator, the
/// clock reading, the attributes of the source where it is another actor
/// than the target, and the attributes, tags and running effects of the
/// target.
#[verifier::reject_recursive_types(V)]
pub struct GameplayEffectParams<'w, V: Scalar> {
    pub tag_manager: &'w GameplayTagManager,
    pub handle_gen: &'w mut ActiveEffectHandleGenerator,
    pub source_attributes: Option<&'w AttributeSet<V>>,
    pub attributes: &'w mut AttributeSet<V>,
    pub tags: &'w mut GameplayTagContainer,
    pub asc: &'w mut AbilitySystemComponent<V>,
    pub time: V,
}

impl<'w, V: Scalar> GameplayEffectParams<'w, V> {
    /// The registry, the attribute tables and the tag container are well
    /// formed.
    pub open spec fn wf(&self) -> bool {
        &&& self.tag_manager.wf()
        &&& self.attributes.wf()
        &&& self.tags.wf()
        &&& self.source_attributes matches Some(attributes) ==> attributes.wf()
    }

    /// What is held of the target.
    pub open spec fn state(&self) -> ActorState<V> {
        ActorState {
            attributes: self.attributes@,
            tag_counts: self.tags.counts(),
            effects: self.asc@,
            last_handle: self.handle_gen.0,
        }
    }
}

/// Whether an actor with the counts `tag_counts` may receive an effect with
/// the tags `tags`: it holds every required tag and no blocked one.
pub open spec fn passes_tag_gate(tag_counts: Seq<u16>, tags: EffectTags) -> bool {
    &&& forall|k: int|
        0 <= k < tags.required_tags@.len() ==> is_active(
            tag_counts,
            (#[trigger] tags.required_tags@[k]).bit_index() as int,
        )
    &&& !(exists|k: int|
        0 <= k < tags.blocked_tags@.len() && is_active(
            tag_counts,
            (#[trigger] tags.blocked_tags@[k]).bit_index() as int,
        ))
}

/// Whether `applies` can come of the draw for an effect with the given
/// probability: where the probability is not less than one there is no draw
/// and the effect applies; otherwise `roll` decides.
pub open spec fn chance_outcome<V: Scalar, R: FnOnce(V) -> bool>(
    probability: V,
    roll: R,
    applies: bool,
) -> bool {
    exists|one: V, uncertain: bool|
        #![trigger is_less_than(probability, one, uncertain)]
        is_one(one) && is_less_than(probability, one, uncertain) && if uncertain {
            call_ensures(roll, (probability,), applies)
        } else {
            applies
        }
}

/// Whether `ticked` can come of asking whether an effect with the given
/// period acts at the moment it is applied: it does where the period is
/// greater than zero and asks for it.
pub open spec fn begins_with_tick<V: Scalar>(period: Option<EffectPeriodSpec<V>>, ticked: bool) -> bool {
    match period {
        Some(period) => exists|periodic: bool| #[trigger]
            is_periodic(period._period, periodic) && ticked == (periodic
                && period._execute_on_applied),
        None => !ticked,
    }
}

/// Whether `after` can be the actor `before` once the resolved effect `spec`
/// was applied at `now`. An instant effect works its modifiers into the
/// current values and leaves nothing behind. Any other effect gets the next
/// handle; it first acts once where its period asks for that; its modifiers
/// go into the aggregators under the handle; its granted tags are added; and
/// it joins the end of the running effects.
pub open spec fn spec_applied<V: Scalar>(
    before: ActorState<V>,
    parents: Seq<Option<u16>>,
    spec: GameplayEffectSpec<V>,
    now: V,
    after: ActorState<V>,
) -> bool {
    if spec.duration_spec is Instant {
        &&& after == (ActorState { attributes: after.attributes, ..before })
        &&& table_takes_instants(before.attributes, spec.modifier_specs@, after.attributes)
    } else {
        let handle = ActiveEffectHandle((before.last_handle + 1) as u64);
        exists|ticked: bool, acted: AttributeSetView<V>|
            #![trigger
                begins_with_tick(spec._period_spec, ticked),
                table_takes_terms(acted, spec.modifier_specs@, handle, after.attributes)
            ]
            {
                &&& begins_with_tick(spec._period_spec, ticked)
                &&& if ticked {
                    table_takes_instants(before.attributes, spec.modifier_specs@, acted)
                } else {
                    acted == before.attributes
                }
                &&& table_takes_terms(acted, spec.modifier_specs@, handle, after.attributes)
                &&& after.tag_counts == counts_after_adds(
                    before.tag_counts,
                    parents,
                    spec.def.tags.granted_tags@,
                )
                &&& after.effects == before.effects.push(
                    ActiveGameplayEffect {
                        handle,
                        spec,
                        start_time: now,
                        last_period_tick_time: if ticked {
                            Some(now)
                        } else {
                            None
                        },
                        _is_inhibited: false,
                    },
                )
                &&& after.last_handle == before.last_handle + 1
            }
    }
}

/// Whether `after` can be the actor `before` once the effect `definition`
/// was applied at `level` and `now`: where the draw or the tag gate keeps the
/// effect out, nothing changes; otherwise the effect is resolved and what it
/// resolved to is applied.
pub open spec fn effect_applied<V: Scalar, R: FnOnce(V) -> bool>(
    before: ActorState<V>,
    parents: Seq<Option<u16>>,
    definition: GameplayEffect<V>,
    level: u32,
    roll: R,
    now: V,
    after: ActorState<V>,
) -> bool {
    exists|applies: bool| #[trigger]
        chance_outcome(definition.probability_to_apply, roll, applies) && if applies
            && passes_tag_gate(before.tag_counts, definition.tags) {
            exists|spec: GameplayEffectSpec<V>| #[trigger]
                definition.can_resolve_to(level, spec) && spec_applied(
                    before,
                    parents,
                    spec,
                    now,
                    after,
                )
        } else {
            after == before
        }
}

/// Makes the draw for an effect with the given probability: none where the
/// probability is not less than one.
pub fn roll_for_application<V: Scalar, R: FnOnce(V) -> bool>(probability: V, roll: R) -> (applies:
    bool)
    requires
        call_requires(roll, (probability,)),
    ensures
        chance_outcome(probability, roll, applies),
{
    let one = V::one();
    let uncertain = probability.less_than(one);
    let applies = if uncertain {
        roll(probability)
    } else {
        true
    };
    proof {
        assert(is_one(one) && is_less_than(probability, one, uncertain));
    }
    applies
}

/// Whether the actor that holds `target_tags` may receive an effect with the
/// tags `tags`.
pub fn check_tag_gate(tags: &EffectTags, target_tags: &GameplayTagContainer) -> (passes: bool)
    requires
        target_tags.wf(),
        tags_in_range(tags.required_tags@),
        tags_in_range(tags.blocked_tags@),
    ensures
        passes == passes_tag_gate(target_tags.counts(), *tags),
{
    target_tags.has_all(tags.get_required_tags()) && !target_tags.has_any(tags.get_blocked_tags())
}

/// Applies the resolved effect `spec` to the target of `params`.
pub fn apply_gameplay_effect_spec<V: Scalar>(
    spec: GameplayEffectSpec<V>,
    params: &mut GameplayEffectParams<'_, V>,
)
    requires
        old(params).wf(),
        old(params).handle_gen.0 < u64::MAX,
    ensures
        final(params).wf(),
        *final(final(params).handle_gen) == *final(old(params).handle_gen),
        *final(final(params).attributes) == *final(old(params).attributes),
        *final(final(params).tags) == *final(old(params).tags),
        *final(final(params).asc) == *final(old(params).asc),
        final(params).tag_manager == old(params).tag_manager,
        final(params).source_attributes == old(params).source_attributes,
        final(params).time == old(params).time,
        spec_applied(
            old(params).state(),
            old(params).tag_manager.parents(),
            spec,
            old(params).time,
            final(params).state(),
        ),
{
    let ghost before = params.state();
    let ghost parents = params.tag_manager.parents();
    if spec.get_duration_spec().is_instant() {
        params.attributes.apply_instant_modifiers(spec.get_modifier_specs());
        proof {
            assert(params.state() == (ActorState {
                attributes: params.state().attributes,
                ..before
            }));
        }
        return ;
    }
    let start_time = params.time;
    let handle = params.handle_gen.generate();
    let mut last_period_tick_time = None;
    let mut ticked = false;
    if let Some(period) = spec.get_period_spec() {
        let periodic = period.is_periodic();
        if periodic && period.get_execute_on_applied() {
            params.attributes.apply_instant_modifiers(spec.get_modifier_specs());
            last_period_tick_time = Some(start_time);
            ticked = true;
        }
        proof {
            assert(is_periodic(period._period, periodic) && ticked == (periodic
                && period._execute_on_applied));
        }
    }
    let ghost acted = params.attributes@;
    params.attributes.apply_duration_modifiers(spec.get_modifier_specs(), handle);
    params.tags.add_tags(spec.get_granted_tags(), params.tag_manager);
    let ghost kept = spec;
    let active_effect = ActiveGameplayEffect::new(handle, spec, start_time, last_period_tick_time);
    params.asc.add_active_effect(active_effect);
    proof {
        let after = params.state();
        assert(begins_with_tick(kept._period_spec, ticked));
        assert(table_takes_terms(acted, kept.modifier_specs@, handle, after.attributes));
    }
}

/// Applies the effect `effect_def` of the actor `source` to the target of
/// `params`, the actor `target`, at `level`. `roll` makes the draw where the
/// effect's probability calls for one.
pub fn apply_gameplay_effect<V: Scalar, R: FnOnce(V) -> bool>(
    source: u64,
    target: u64,
    effect_def: &Arc<GameplayEffect<V>>,
    params: &mut GameplayEffectParams<'_, V>,
    level: u32,
    roll: R,
)
    requires
        old(params).wf(),
        old(params).handle_gen.0 < u64::MAX,
        tags_in_range(effect_def.tags.required_tags@),
        tags_in_range(effect_def.tags.blocked_tags@),
        call_requires(roll, (effect_def.probability_to_apply,)),
    ensures
        final(params).wf(),
        *final(final(params).handle_gen) == *final(old(params).handle_gen),
        *final(final(params).attributes) == *final(old(params).attributes),
        *final(final(params).tags) == *final(old(params).tags),
        *final(final(params).asc) == *final(old(params).asc),
        final(params).tag_manager == old(params).tag_manager,
        final(params).source_attributes == old(params).source_attributes,
        final(params).time == old(params).time,
        effect_applied(
            old(params).state(),
            old(params).tag_manager.parents(),
            **effect_def,
            level,
            roll,
            old(params).time,
            final(params).state(),
        ),
        !passes_tag_gate(old(params).state().tag_counts, effect_def.tags) ==> final(params).state()
            == old(params).state(),
{
    let ghost before = params.state();
    let probability = effect_def.get_probability_to_apply();
    let applies = roll_for_application(probability, roll);
    if !applies {
        return ;
    }
    let tags = effect_def.get_tags();
    if !check_tag_gate(tags, &*params.tags) {
        return ;
    }
    let spec = {
        let context = EffectContext {
            source: Some(source),
            target: Some(target),
            source_attributes: if source == target {
                Some(&*params.attributes)
            } else {
                params.source_attributes
            },
            target_attributes: Some(&*params.attributes),
            level,
        };
        GameplayEffect::make_spec(effect_def, &context)
    };
    let ghost resolved = spec;
    apply_gameplay_effect_spec(spec, params);
    proof {
        assert(effect_def.can_resolve_to(level, resolved) && spec_applied(
            before,
            params.tag_manager.parents(),
            resolved,
            params.time,
            params.state(),
        ));
    }
}

/// What a sweep makes of one running effect: it is over, it acts again, or
/// nothing is due.
pub enum TickVerdict {
    Expired,
    Ticked,
    Idle,
}

/// Whether `verdict` can be what a sweep at `now` makes of `effect`.
pub open spec fn verdict_fits<V: Scalar>(
    effect: ActiveGameplayEffect<V>,
    now: V,
    verdict: TickVerdict,
) -> bool {
    match verdict {
        TickVerdict::Expired => effect.expiry_outcome(now, true),
        TickVerdict::Ticked => effect.expiry_outcome(now, false) && effect.tick_outcome(now, true),
        TickVerdict::Idle => effect.expiry_outcome(now, false) && effect.tick_outcome(now, false),
    }
}

/// Whether `after` can be the attribute table `before` once a sweep at `now`
/// has looked at `effect` and made `verdict` of it: an effect that acts again
/// works its modifiers into the current values; any other leaves the table
/// as it is.
pub open spec fn sweep_step<V: Scalar>(
    effect: ActiveGameplayEffect<V>,
    now: V,
    verdict: TickVerdict,
    before: AttributeSetView<V>,
    after: AttributeSetView<V>,
) -> bool {
    verdict_fits(effect, now, verdict) && if verdict is Ticked {
        table_takes_instants(before, effect.spec.modifier_specs@, after)
    } else {
        after == before
    }
}

/// Whether `table_after` and `counts_after` can be the attribute table and
/// the tag counts once `effect` was retired, if `verdict` says it is over:
/// it loses its terms in every aggregator, and its granted tags are removed.
pub open spec fn retire_step<V: Scalar>(
    effect: ActiveGameplayEffect<V>,
    verdict: TickVerdict,
    parents: Seq<Option<u16>>,
    table_before: AttributeSetView<V>,
    counts_before: Seq<u16>,
    table_after: AttributeSetView<V>,
    counts_after: Seq<u16>,
) -> bool {
    if verdict is Expired {
        &&& table_drops_handle(table_before, effect.handle, table_after)
        &&& counts_after == counts_after_removes(
            counts_before,
            parents,
            effect.spec.def.tags.granted_tags@,
        )
    } else {
        &&& table_after == table_before
        &&& counts_after == counts_before
    }
}

/// `tables` holds the attribute tables met while a sweep at `now` goes
/// through `effects`, first to last, with the verdicts `verdicts`: an effect
/// that acts again works its modifiers into the current values; any other
/// leaves the table as it is.
pub open spec fn is_sweep_trace<V: Scalar>(
    effects: Seq<ActiveGameplayEffect<V>>,
    now: V,
    verdicts: Seq<TickVerdict>,
    tables: Seq<AttributeSetView<V>>,
) -> bool {
    &&& verdicts.len() == effects.len()
    &&& tables.len() == effects.len() + 1
    &&& forall|k: int|
        0 <= k < effects.len() ==> #[trigger] sweep_step(
            effects[k],
            now,
            verdicts[k],
            tables[k],
            tables[k + 1],
        )
}

/// The effects after a sweep at `now`: one that acted again has `now` as the
/// time it last acted.
pub open spec fn swept_effects<V: Scalar>(
    effects: Seq<ActiveGameplayEffect<V>>,
    verdicts: Seq<TickVerdict>,
    now: V,
) -> Seq<ActiveGameplayEffect<V>> {
    Seq::new(
        effects.len(),
        |k: int|
            if verdicts[k] is Ticked {
                ActiveGameplayEffect { last_period_tick_time: Some(now), ..effects[k] }
            } else {
                effects[k]
            },
    )
}

/// The handles of the effects that a sweep found to be over, in order.
pub open spec fn expired_handles<V: Scalar>(
    effects: Seq<ActiveGameplayEffect<V>>,
    verdicts: Seq<TickVerdict>,
) -> Seq<ActiveEffectHandle>
    decreases effects.len(),
{
    if effects.len() == 0 {
        Seq::empty()
    } else if verdicts.last() is Expired {
        expired_handles(effects.drop_last(), verdicts.drop_last()).push(effects.last().handle)
    } else {
        expired_handles(effects.drop_last(), verdicts.drop_last())
    }
}

/// `tables` and `counts` hold the attribute tables and tag counts met while
/// the effects that a sweep found to be over are retired, first to last: each
/// loses its terms in every aggregator, and its granted tags are removed.
pub open spec fn is_retire_trace<V: Scalar>(
    effects: Seq<ActiveGameplayEffect<V>>,
    verdicts: Seq<TickVerdict>,
    parents: Seq<Option<u16>>,
    tables: Seq<AttributeSetView<V>>,
    counts: Seq<Seq<u16>>,
) -> bool {
    &&& verdicts.len() == effects.len()
    &&& tables.len() == effects.len() + 1
    &&& counts.len() == effects.len() + 1
    &&& forall|k: int|
        0 <= k < effects.len() ==> #[trigger] retire_step(
            effects[k],
            verdicts[k],
            parents,
            tables[k],
            counts[k],
            tables[k + 1],
            counts[k + 1],
        )
}

/// Whether `after` can be the actor `before` once a time step was taken at
/// `now`. First every running effect is looked at in order: one that is over
/// is marked; one that is due acts again and remembers `now`. Then the
/// marked effects are retired in order, and taken off the running effects.
pub open spec fn time_step_taken<V: Scalar>(
    before: ActorState<V>,
    parents: Seq<Option<u16>>,
    now: V,
    after: ActorState<V>,
) -> bool {
    exists|
        verdicts: Seq<TickVerdict>,
        swept: Seq<AttributeSetView<V>>,
        retired: Seq<AttributeSetView<V>>,
        counts: Seq<Seq<u16>>,
    |
        #![trigger
            is_sweep_trace(before.effects, now, verdicts, swept),
            is_retire_trace(before.effects, verdicts, parents, retired, counts)
        ]
        {
            &&& is_sweep_trace(before.effects, now, verdicts, swept)
            &&& swept[0] == before.attributes
            &&& is_retire_trace(before.effects, verdicts, parents, retired, counts)
            &&& retired[0] == swept.last()
            &&& counts[0] == before.tag_counts
            &&& after.attributes == retired.last()
            &&& after.tag_counts == counts.last()
            &&& after.effects == without_handles(
                swept_effects(before.effects, verdicts, now),
                expired_handles(before.effects, verdicts),
            )
            &&& after.last_handle == before.last_handle
        }
}

/// Takes one time step, at the clock reading of `params`, for the target of
/// `params`.
pub fn tick_gameplay_effects_system<V: Scalar>(params: &mut GameplayEffectParams<'_, V>)
    requires
        old(params).wf(),
    ensures
        final(params).wf(),
        *final(final(params).handle_gen) == *final(old(params).handle_gen),
        *final(final(params).attributes) == *final(old(params).attributes),
        *final(final(params).tags) == *final(old(params).tags),
        *final(final(params).asc) == *final(old(params).asc),
        final(params).tag_manager == old(params).tag_manager,
        final(params).source_attributes == old(params).source_attributes,
        final(params).time == old(params).time,
        time_step_taken(
            old(params).state(),
            old(params).tag_manager.parents(),
            old(params).time,
            final(params).state(),
        ),
{
    let current_time = params.time;
    let tag_manager = params.tag_manager;
    let ghost before = params.state();
    let ghost effects = params.asc@;
    let ghost parents = tag_manager.parents();
    let count = params.asc.get_active_effects().len();
    let mut expired: Vec<bool> = Vec::new();
    let ghost mut verdicts: Seq<TickVerdict> = Seq::empty();
    let ghost mut swept: Seq<AttributeSetView<V>> = seq![params.attributes@];
    let mut k: usize = 0;
    while k < count
        invariant
            k <= count,
            count == effects.len(),
            effects == before.effects,
            params.asc@.len() == count,
            params.tags.counts() == before.tag_counts,
            *final(params.handle_gen) == *final(old(params).handle_gen),
            *final(params.attributes) == *final(old(params).attributes),
            *final(params.tags) == *final(old(params).tags),
            *final(params.asc) == *final(old(params).asc),
            params.tag_manager == old(params).tag_manager,
            params.source_attributes == old(params).source_attributes,
            params.time == old(params).time,
            params.handle_gen.0 == old(params).handle_gen.0,
            params.wf(),
            tag_manager == params.tag_manager,
            current_time == params.time,
            before == old(params).state(),
            expired@.len() == k,
            verdicts.len() == k,
            swept.len() == k + 1,
            swept[0] == before.attributes,
            swept.last() == params.attributes@,
            forall|j: int| 0 <= j < k ==> expired@[j] == (#[trigger] verdicts[j] is Expired),
            forall|j: int|
                0 <= j < k ==> #[trigger] sweep_step(
                    effects[j],
                    current_time,
                    verdicts[j],
                    swept[j],
                    swept[j + 1],
                ),
            forall|j: int|
                0 <= j < k ==> #[trigger] params.asc@[j] == (if verdicts[j] is Ticked {
                    ActiveGameplayEffect { last_period_tick_time: Some(current_time), ..effects[j] }
                } else {
                    effects[j]
                }),
            forall|j: int| k <= j < count ==> #[trigger] params.asc@[j] == effects[j],
        decreases count - k,
    {
        let ghost swept_before = swept;
        let ghost verdicts_before = verdicts;
        let ghost asc_before = params.asc@;
        let mut verdict = Ghost(TickVerdict::Idle);
        if params.asc.get_active_effects()[k].is_expired(current_time) {
            expired.push(true);
            proof {
                verdict@ = TickVerdict::Expired;
            }
        } else {
            expired.push(false);
            if params.asc.get_active_effects()[k].can_period_tick(current_time) {
                params.attributes.apply_instant_modifiers(params.asc.get_active_effects()[k].spec.get_modifier_specs());
                params.asc.set_last_period_tick_time(k, current_time);
                proof {
                    verdict@ = TickVerdict::Ticked;
                }
            }
        }
        proof {
            verdicts = verdicts_before.push(verdict@);
            swept = swept_before.push(params.attributes@);
            assert forall|j: int| 0 <= j < k + 1 implies #[trigger] sweep_step(
                effects[j],
                current_time,
                verdicts[j],
                swept[j],
                swept[j + 1],
            ) by {
                if j < k {
                    assert(verdicts[j] == verdicts_before[j]);
                    assert(swept[j] == swept_before[j]);
                    assert(swept[j + 1] == swept_before[j + 1]);
                } else {
                    assert(asc_before[k as int] == effects[k as int]);
                    assert(verdicts[k as int] == verdict@);
                    assert(swept[k as int] == swept_before.last());
                    assert(swept[k + 1] == params.attributes@);
                    assert(verdict_fits(effects[k as int], current_time, verdict@));
                }
            }
            assert forall|j: int| 0 <= j < k + 1 implies #[trigger] params.asc@[j] == (if verdicts[j] is Ticked {
                ActiveGameplayEffect { last_period_tick_time: Some(current_time), ..effects[j] }
            } else {
                effects[j]
            }) by {
                if j < k {
                    assert(params.asc@[j] == asc_before[j]);
                    assert(verdicts[j] == verdicts_before[j]);
                } else {
                    assert(asc_before[k as int] == effects[k as int]);
                }
            }
            assert forall|j: int| k + 1 <= j < count implies #[trigger] params.asc@[j] == effects[j] by {
                assert(params.asc@[j] == asc_before[j]);
            }
        }
        k += 1;
    }
    proof {
        assert(is_sweep_trace(effects, current_time, verdicts, swept));
        assert(params.asc@ =~= swept_effects(effects, verdicts, current_time));
    }
    let ghost after_sweep = params.attributes@;
    let ghost mut retired: Seq<AttributeSetView<V>> = seq![params.attributes@];
    let ghost mut counts: Seq<Seq<u16>> = seq![params.tags.counts()];
    let mut remove_handles: Vec<ActiveEffectHandle> = Vec::new();
    let mut k: usize = 0;
    while k < count
        invariant
            k <= count,
            count == effects.len(),
            params.asc@.len() == count,
            params.asc@ == swept_effects(effects, verdicts, current_time),
            verdicts.len() == count,
            expired@.len() == count,
            forall|j: int| 0 <= j < count ==> expired@[j] == (#[trigger] verdicts[j] is Expired),
            parents == tag_manager.parents(),
            effects == before.effects,
            *final(params.handle_gen) == *final(old(params).handle_gen),
            *final(params.attributes) == *final(old(params).attributes),
            *final(params.tags) == *final(old(params).tags),
            *final(params.asc) == *final(old(params).asc),
            params.tag_manager == old(params).tag_manager,
            params.source_attributes == old(params).source_attributes,
            params.time == old(params).time,
            params.handle_gen.0 == old(params).handle_gen.0,
            params.wf(),
            tag_manager == params.tag_manager,
            current_time == params.time,
            before == old(params).state(),
            retired.len() == k + 1,
            counts.len() == k + 1,
            retired[0] == after_sweep,
            counts[0] == before.tag_counts,
            retired.last() == params.attributes@,
            counts.last() == params.tags.counts(),
            remove_handles@ == expired_handles(effects.take(k as int), verdicts.take(k as int)),
            forall|j: int|
                0 <= j < k ==> #[trigger] retire_step(
                    effects[j],
                    verdicts[j],
                    parents,
                    retired[j],
                    counts[j],
                    retired[j + 1],
                    counts[j + 1],
                ),
        decreases count - k,
    {
        let ghost retired_before = retired;
        let ghost counts_before = counts;
        proof {
            assert(effects.take(k + 1).drop_last() =~= effects.take(k as int));
            assert(verdicts.take(k + 1).drop_last() =~= verdicts.take(k as int));
            assert(effects.take(k + 1).last() == effects[k as int]);
            assert(verdicts.take(k + 1).last() == verdicts[k as int]);
            assert(params.asc@[k as int].handle == effects[k as int].handle);
            assert(params.asc@[k as int].spec == effects[k as int].spec);
        }
        if expired[k] {
            let handle = params.asc.get_active_effects()[k].get_handle();
            params.attributes.remove_modifiers(handle);
            params.tags.remove_tags(params.asc.get_active_effects()[k].spec.get_granted_tags(), tag_manager);
            remove_handles.push(handle);
        }
        proof {
            retired = retired_before.push(params.attributes@);
            counts = counts_before.push(params.tags.counts());
            assert forall|j: int| 0 <= j < k + 1 implies #[trigger] retire_step(
                effects[j],
                verdicts[j],
                parents,
                retired[j],
                counts[j],
                retired[j + 1],
                counts[j + 1],
            ) by {
                if j < k {
                    assert(retired[j] == retired_before[j]);
                    assert(retired[j + 1] == retired_before[j + 1]);
                    assert(counts[j] == counts_before[j]);
                    assert(counts[j + 1] == counts_before[j + 1]);
                } else {
                    assert(retired[k as int] == retired_before.last());
                    assert(retired[k + 1] == params.attributes@);
                    assert(counts[k as int] == counts_before.last());
                    assert(counts[k + 1] == params.tags.counts());
                }
            }
        }
        k += 1;
    }
    params.asc.remove_active_effects(remove_handles.as_slice());
    proof {
        assert(effects.take(count as int) =~= effects);
        assert(verdicts.take(count as int) =~= verdicts);
        assert(is_retire_trace(effects, verdicts, parents, retired, counts));
        assert(is_sweep_trace(before.effects, current_time, verdicts, swept));
        assert(is_retire_trace(before.effects, verdicts, parents, retired, counts));
    }
}

} // verus!
