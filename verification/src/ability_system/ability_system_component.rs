use vstd::prelude::*;
use crate::gameplay_effects::active_gameplay_effect::{ActiveEffectHandle, ActiveGameplayEffect};
use crate::scalar::Scalar;

verus! {

/// The effects of `effects` whose handle is not in `handles`, in order.
pub open spec fn without_handles<V: Scalar>(
    effects: Seq<ActiveGameplayEffect<V>>,
    handles: Seq<ActiveEffectHandle>,
) -> Seq<ActiveGameplayEffect<V>>
    decreases effects.len(),
{
    if effects.len() == 0 {
        effects
    } else if handles.contains(effects.first().handle) {
        without_handles(effects.drop_first(), handles)
    } else {
        seq![effects.first()] + without_handles(effects.drop_first(), handles)
    }
}

/// Whether `handle` is one of `handles`.
pub fn contains_handle(handles: &[ActiveEffectHandle], handle: ActiveEffectHandle) -> (found: bool)
    ensures
        found == handles@.contains(handle),
{
    let mut k: usize = 0;
    while k < handles.len()
        invariant
            k <= handles.len(),
            forall|j: int| 0 <= j < k ==> handles@[j] != handle,
        decreases handles.len() - k,
    {
        if handles[k] == handle {
            return true;
        }
        k += 1;
    }
    false
}

/// The effects that run on one actor, in the order in which they were applied.
#[verifier::reject_recursive_types(V)]
pub struct AbilitySystemComponent<V: Scalar> {
    active_effects: Vec<ActiveGameplayEffect<V>>,
}

impl<V: Scalar> View for AbilitySystemComponent<V> {
    type V = Seq<ActiveGameplayEffect<V>>;

    closed spec fn view(&self) -> Seq<ActiveGameplayEffect<V>> {
        self.active_effects@
    }
}

impl<V: Scalar> AbilitySystemComponent<V> {
    /// A component on which no effect runs.
    pub fn new() -> (component: Self)
        ensures
            component@.len() == 0,
    {
        Self { active_effects: Vec::new() }
    }

    /// The effects that run, in the order in which they were applied.
    pub fn get_active_effects(&self) -> (effects: &[ActiveGameplayEffect<V>])
        ensures
            effects@ == self@,
    {
        self.active_effects.as_slice()
    }

    /// Records `time` as the time at which the effect at `index` last acted.
    pub fn set_last_period_tick_time(&mut self, index: usize, time: V)
        requires
            index < old(self)@.len(),
        ensures
            final(self)@ == old(self)@.update(
                index as int,
                ActiveGameplayEffect {
                    last_period_tick_time: Some(time),
                    ..old(self)@[index as int]
                },
            ),
    {
        self.active_effects[index].set_last_period_tick_time(time);
        proof {
            assert(self@ =~= old(self)@.update(
                index as int,
                ActiveGameplayEffect {
                    last_period_tick_time: Some(time),
                    ..old(self)@[index as int]
                },
            ));
        }
    }

    /// Puts `effect` behind the effects that run already.
    pub fn add_active_effect(&mut self, effect: ActiveGameplayEffect<V>)
        ensures
            final(self)@ == old(self)@.push(effect),
    {
        self.active_effects.push(effect);
    }

    /// Takes out every effect whose handle is in `handle_list`; the others
    /// keep their order.
    pub fn remove_active_effects(&mut self, handle_list: &[ActiveEffectHandle])
        ensures
            final(self)@ == without_handles(old(self)@, handle_list@),
    {
        let mut k: usize = 0;
        proof {
            assert(self@.skip(0) =~= self@);
            assert(self@.take(0) + without_handles(self@, handle_list@) =~= without_handles(
                self@,
                handle_list@,
            ));
        }
        while k < self.active_effects.len()
            invariant
                k <= self.active_effects.len(),
                without_handles(old(self)@, handle_list@) == self@.take(k as int) + without_handles(
                    self@.skip(k as int),
                    handle_list@,
                ),
            decreases self.active_effects.len() - k,
        {
            let ghost before = self@;
            let handle = self.active_effects[k].get_handle();
            proof {
                assert(before.skip(k as int).first() == before[k as int]);
                assert(before.skip(k as int).drop_first() =~= before.skip(k + 1));
            }
            if contains_handle(handle_list, handle) {
                self.active_effects.remove(k);
                proof {
                    assert(self@.take(k as int) =~= before.take(k as int));
                    assert(self@.skip(k as int) =~= before.skip(k + 1));
                }
            } else {
                proof {
                    assert(before.take(k + 1) =~= before.take(k as int) + seq![before[k as int]]);
                    assert(before.take(k as int) + (seq![before[k as int]] + without_handles(
                        before.skip(k + 1),
                        handle_list@,
                    )) =~= before.take(k + 1) + without_handles(before.skip(k + 1), handle_list@));
                }
                k += 1;
            }
        }
        proof {
            assert(self@.skip(self@.len() as int) =~= Seq::empty());
            assert(self@.take(self@.len() as int) =~= self@);
            assert(self@ + Seq::<ActiveGameplayEffect<V>>::empty() =~= self@);
        }
    }
}

impl<V: Scalar> Default for AbilitySystemComponent<V> {
    fn default() -> (component: Self)
        ensures
            component@.len() == 0,
    {
        Self::new()
    }
}

} // verus!
