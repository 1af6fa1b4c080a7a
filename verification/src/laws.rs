use vstd::prelude::*;
use crate::attributes::attribute::AttributeView;
use crate::attributes::attribute_aggregator::{
    lemma_without_absent_handle, AggregatorView, TermsView,
};
use crate::attributes::attribute_id_manager::{
    registered_attribute, requested_attribute, AttributeTableView,
};
use crate::gameplay_effects::active_gameplay_effect::{
    effect_applied, passes_tag_gate, ActiveEffectHandle, ActorState,
};
use crate::gameplay_effects::gameplay_effect::GameplayEffect;
use crate::gameplay_tags::gameplay_tag::{
    lemma_request_is_descent, requested, requested_by_descent, settled, walked,
    TAG_PATH_DELIMITER,
};
use crate::gameplay_tags::gameplay_tag_bits::MAX_TAG_COUNTS;
use crate::gameplay_tags::gameplay_tag_container::{
    counts_after_add, counts_after_remove, removal_applies,
};
use crate::gameplay_tags::gameplay_tag_manager::{
    has_active_descendants, is_active, is_ancestor_or_self, is_descendant,
    lemma_ancestor_is_not_later, lemma_ancestors_kept, registered, TagTableView,
};
use crate::modifiers::modifier::{ModifierOperation, ModifierSpec};
use crate::paths::{last_delimiter, lemma_last_delimiter};
use crate::scalar::Scalar;
use crate::tables::fixed_hash;
use crate::unique_name::{interned, try_interned, PoolView};

verus! {

/// An override is the value: once a modifier was applied as an override,
/// every evaluation yields its number, whatever the base value, the other
/// terms and the combination rule are.
pub proof fn law_override_short_circuits<V: Scalar>(
    aggregator: AggregatorView<V>,
    spec: ModifierSpec<V>,
    handle: ActiveEffectHandle,
    base_value: V,
    value: V,
)
    requires
        spec.op == ModifierOperation::Override,
        (AggregatorView { terms: aggregator.terms.applied(spec, handle), ..aggregator }).can_evaluate_to(
            base_value,
            value,
        ),
    ensures
        value == spec.value,
{
}

/// An override lasts until it is cleared: applying other terms leaves it in
/// place, and removing by its handle takes it out and nothing else that
/// other handles put there.
pub proof fn law_override_lasts_until_cleared<V: Scalar>(
    terms: TermsView<V>,
    spec: ModifierSpec<V>,
    handle: ActiveEffectHandle,
)
    requires
        terms.override_value.is_some(),
    ensures
        spec.op != ModifierOperation::Override ==> terms.applied(spec, handle).override_value
            == terms.override_value,
        handle != terms.override_value.unwrap().handle ==> terms.removed(handle).override_value
            == terms.override_value,
        terms.removed(terms.override_value.unwrap().handle).override_value.is_none(),
{
}

/// Applying a modifier under a handle and then removing by that handle
/// restores the terms, and with them every outcome of an evaluation,
/// provided the handle had put nothing there before and the modifier did not
/// replace an override.
pub proof fn law_apply_then_remove_restores<V: Scalar>(
    terms: TermsView<V>,
    spec: ModifierSpec<V>,
    handle: ActiveEffectHandle,
)
    requires
        !terms.mentions(handle),
        spec.op == ModifierOperation::Override ==> terms.override_value.is_none(),
    ensures
        terms.applied(spec, handle).removed(handle) == terms,
        forall|base_value: V, value: V|
            terms.applied(spec, handle).removed(handle).default_outcome(base_value, value)
                == terms.default_outcome(base_value, value),
{
    lemma_without_absent_handle(terms.additive, handle);
    lemma_without_absent_handle(terms.percent_additive, handle);
    lemma_without_absent_handle(terms.multiplicative, handle);
    let applied = terms.applied(spec, handle);
    match spec.op {
        ModifierOperation::Add => {
            assert(applied.additive.drop_last() =~= terms.additive);
        },
        ModifierOperation::PercentAdd => {
            assert(applied.percent_additive.drop_last() =~= terms.percent_additive);
        },
        ModifierOperation::Multiply => {
            assert(applied.multiplicative.drop_last() =~= terms.multiplicative);
        },
        ModifierOperation::Override => {},
    }
    let restored = applied.removed(handle);
    assert(restored.additive == terms.additive);
    assert(restored.percent_additive == terms.percent_additive);
    assert(restored.multiplicative == terms.multiplicative);
    assert(restored.override_value == terms.override_value);
}

/// The round trip on an attribute: once a modifier was applied under a fresh
/// handle and everything of that handle was removed again, the attribute
/// differs from the one before at most in being out of date, so that a
/// refresh gives it a current value that the attribute before could have got.
pub proof fn law_attribute_round_trip<V: Scalar>(
    attribute: AttributeView<V>,
    spec: ModifierSpec<V>,
    handle: ActiveEffectHandle,
    refreshed: AttributeView<V>,
)
    requires
        !attribute.aggregator.terms.mentions(handle),
        spec.op == ModifierOperation::Override ==> attribute.aggregator.terms.override_value.is_none(),
        attribute.with_term(spec, handle).without_terms_of(handle).can_refresh_to(refreshed),
    ensures
        attribute.with_term(spec, handle).without_terms_of(handle) == (AttributeView {
            dirty: true,
            ..attribute
        }),
        attribute.can_have_current(refreshed.current),
        refreshed == (AttributeView { current: refreshed.current, dirty: false, ..attribute }),
{
    law_apply_then_remove_restores(attribute.aggregator.terms, spec, handle);
}

/// Adding a tag grants its ancestors: afterwards the tag and every tag above
/// it is held.
pub proof fn law_add_tag_grants_ancestors(
    counts: Seq<u16>,
    parents: Seq<Option<u16>>,
    tag: int,
    ancestor: int,
)
    requires
        parents.len() <= counts.len(),
        is_ancestor_or_self(parents, ancestor, tag),
        0 <= ancestor,
    ensures
        is_active(counts_after_add(counts, parents, tag), ancestor),
{
    lemma_ancestor_is_not_later(parents, ancestor, tag);
}

/// Adding a tag takes nothing away: whatever was held is held afterwards.
pub proof fn law_add_tag_keeps_held(
    counts: Seq<u16>,
    parents: Seq<Option<u16>>,
    tag: int,
    held: int,
)
    requires
        is_active(counts, held),
    ensures
        is_active(counts_after_add(counts, parents, tag), held),
{
}

/// Ancestors are retained while another holder is left: removing a tag
/// lowers each count on its chain by one, so that a tag on the chain that was
/// held more than once is still held, and one that was held once is not.
pub proof fn law_remove_tag_retains_shared_ancestors(
    counts: Seq<u16>,
    parents: Seq<Option<u16>>,
    tag: int,
    ancestor: int,
)
    requires
        removal_applies(counts, parents, tag),
        is_ancestor_or_self(parents, ancestor, tag),
        0 <= ancestor < counts.len(),
    ensures
        is_active(counts_after_remove(counts, parents, tag), ancestor) == (counts[ancestor] >= 2),
        !is_active(counts_after_remove(counts, parents, tag), tag) == (counts[tag] == 1),
{
    assert(is_ancestor_or_self(parents, tag, tag)) by {
        lemma_ancestor_is_not_later(parents, ancestor, tag);
    }
}

/// The descendant guard: while a tag below it is held, removing a tag
/// changes nothing, so that the tag itself stays held where it was.
pub proof fn law_descendant_guard(counts: Seq<u16>, parents: Seq<Option<u16>>, tag: int, below: int)
    requires
        is_descendant(parents, tag, below),
        is_active(counts, below),
    ensures
        counts_after_remove(counts, parents, tag) == counts,
{
    assert(has_active_descendants(parents, tag, counts));
}

/// Removing a tag touches only its own chain: the count of a tag that is
/// neither the tag nor one of its ancestors stays as it was.
pub proof fn law_remove_tag_leaves_others(
    counts: Seq<u16>,
    parents: Seq<Option<u16>>,
    tag: int,
    other: int,
)
    requires
        0 <= other < counts.len(),
        !is_ancestor_or_self(parents, other, tag),
    ensures
        counts_after_remove(counts, parents, tag)[other] == counts[other],
{
}

/// An effect that the tags of its target keep out changes nothing: where the
/// target lacks a required tag, or holds a blocked one, the target is
/// afterwards as it was, whatever the draw.
pub proof fn law_rejected_effect_changes_nothing<V: Scalar, R: FnOnce(V) -> bool>(
    before: ActorState<V>,
    parents: Seq<Option<u16>>,
    definition: GameplayEffect<V>,
    level: u32,
    roll: R,
    now: V,
    after: ActorState<V>,
)
    requires
        !passes_tag_gate(before.tag_counts, definition.tags),
        effect_applied(before, parents, definition, level, roll, now, after),
    ensures
        after == before,
{
}

/// A text that the pool knows by `position`: the empty text by position 0,
/// any other by the position recorded for its hash.
pub open spec fn is_known_as(pool: PoolView, text: Seq<char>, position: u32) -> bool {
    if text.len() == 0 {
        position == 0
    } else {
        pool.lookup.contains_key(fixed_hash(text)) && pool.lookup[fixed_hash(text)] == position
    }
}

/// Interning is idempotent: a text that was interned is known by its
/// position, and interning a text that is known changes nothing and yields
/// the position it is known by.
pub proof fn law_interning_is_idempotent(pool: PoolView, text: Seq<char>)
    ensures
        is_known_as(interned(pool, text).0, text, interned(pool, text).1),
        interned(interned(pool, text).0, text) == interned(pool, text),
        forall|position: u32|
            is_known_as(pool, text, position) ==> try_interned(pool, text) == Some((pool, position)),
{
}

/// Interning another text leaves a known text known by the same position.
pub proof fn lemma_known_stays_known(
    pool: PoolView,
    other: Seq<char>,
    text: Seq<char>,
    position: u32,
)
    requires
        is_known_as(pool, text, position),
    ensures
        is_known_as(interned(pool, other).0, text, position),
{
}

/// Registering a name is idempotent: a name that was registered keeps its
/// index, whatever parent is named the second time, and the registry stays
/// as it was.
pub proof fn law_tag_registration_is_idempotent(
    table: TagTableView,
    name: u32,
    parent: Option<u16>,
    other_parent: Option<u16>,
)
    ensures
        registered(registered(table, name, parent).0, name, other_parent) == registered(
            table,
            name,
            parent,
        ),
{
}

/// Registering an attribute name is idempotent: a name that was registered
/// keeps its slot, and the registry stays as it was.
pub proof fn law_attribute_registration_is_idempotent(table: AttributeTableView, name: u32)
    ensures
        registered_attribute(registered_attribute(table, name).0, name) == registered_attribute(
            table,
            name,
        ),
{
}

/// Requesting an attribute by name is idempotent: a second request for the
/// same name yields the same slot and changes neither the pool nor the
/// registry.
pub proof fn law_attribute_request_is_idempotent(
    pool: PoolView,
    table: AttributeTableView,
    name: Seq<char>,
)
    requires
        requested_attribute(pool, table, name).is_some(),
    ensures
        ({
            let (pool_after, table_after, slot) = requested_attribute(pool, table, name).unwrap();
            requested_attribute(pool_after, table_after, name) == Some(
                (pool_after, table_after, slot),
            )
        }),
{
    law_interning_is_idempotent(pool, name);
}

/// A walk leaves a known text known by the same position.
pub proof fn lemma_walk_keeps_known(
    pool: PoolView,
    tags: Map<u32, u16>,
    path: Seq<char>,
    pending: Seq<u32>,
    text: Seq<char>,
    position: u32,
)
    requires
        is_known_as(pool, text, position),
        walked(pool, tags, path, pending).is_some(),
    ensures
        is_known_as(walked(pool, tags, path, pending).unwrap().0, text, position),
    decreases path.len(),
{
    let (after, name) = try_interned(pool, path).unwrap();
    lemma_known_stays_known(pool, path, text, position);
    let cut = last_delimiter(path, TAG_PATH_DELIMITER);
    if !tags.contains_key(name) && cut >= 0 {
        lemma_last_delimiter(path, TAG_PATH_DELIMITER);
        lemma_walk_keeps_known(after, tags, path.take(cut), pending.push(name), text, position);
    }
}

/// A walk only adds to the names pending: those that were pending before it
/// come first in its outcome, in their order.
pub proof fn lemma_walk_extends_pending(
    pool: PoolView,
    tags: Map<u32, u16>,
    path: Seq<char>,
    pending: Seq<u32>,
)
    requires
        walked(pool, tags, path, pending).is_some(),
    ensures
        walked(pool, tags, path, pending).unwrap().1.len() >= pending.len(),
        forall|k: int|
            0 <= k < pending.len() ==> walked(pool, tags, path, pending).unwrap().1[k] == pending[k],
    decreases path.len(),
{
    let (after, name) = try_interned(pool, path).unwrap();
    let cut = last_delimiter(path, TAG_PATH_DELIMITER);
    if !tags.contains_key(name) && cut >= 0 {
        lemma_last_delimiter(path, TAG_PATH_DELIMITER);
        lemma_walk_extends_pending(after, tags, path.take(cut), pending.push(name));
        assert forall|k: int| 0 <= k < pending.len() implies walked(
            pool,
            tags,
            path,
            pending,
        ).unwrap().1[k] == pending[k] by {
            assert(pending.push(name)[k] == pending[k]);
        }
    }
}

/// A registration of pending names ends with the first of them registered,
/// under the index that it yields.
pub proof fn lemma_settle_registers_first(
    table: TagTableView,
    pending: Seq<u32>,
    parent: Option<u16>,
)
    requires
        pending.len() > 0,
        settled(table, pending, parent).is_some(),
    ensures
        ({
            let (after, index) = settled(table, pending, parent).unwrap();
            after.names.contains_key(pending[0]) && index == Some(after.names[pending[0]])
        }),
    decreases pending.len(),
{
    let (next, index) = registered(table, pending.last(), parent);
    assert(settled(table, pending, parent) == settled(next, pending.drop_last(), Some(index)));
    if pending.len() > 1 {
        assert(pending.drop_last()[0] == pending[0]);
        lemma_settle_registers_first(next, pending.drop_last(), Some(index));
    } else {
        assert(pending.drop_last().len() == 0);
        assert(pending.last() == pending[0]);
        assert(settled(next, pending.drop_last(), Some(index)) == Some((next, Some(index))));
    }
}

/// Requesting a tag by path is idempotent: a second request for the same
/// path yields the same tag and changes neither the pool nor the registry.
pub proof fn law_tag_request_is_idempotent(pool: PoolView, table: TagTableView, path: Seq<char>)
    requires
        requested_by_descent(pool, table, path).is_some(),
    ensures
        ({
            let (pool_after, table_after, index) = requested_by_descent(pool, table, path).unwrap();
            requested_by_descent(pool_after, table_after, path) == Some(
                (pool_after, table_after, index),
            )
        }),
{
    lemma_request_is_descent(pool, table, path);
    lemma_request_is_descent(
        requested(pool, table, path).unwrap().0,
        requested(pool, table, path).unwrap().1,
        path,
    );
    let empty = Seq::<u32>::empty();
    let (pool_after, pending, base) = walked(pool, table.names, path, empty).unwrap();
    let (table_after, found) = settled(table, pending, base).unwrap();
    let index = found.unwrap();
    let (first_pool, name) = try_interned(pool, path).unwrap();
    law_interning_is_idempotent(pool, path);
    assert(is_known_as(first_pool, path, name));
    let cut = last_delimiter(path, TAG_PATH_DELIMITER);
    if table.names.contains_key(name) {
        assert(pool_after == first_pool);
        assert(pending.len() == 0);
        assert(table_after == table);
    } else {
        if cut >= 0 {
            lemma_last_delimiter(path, TAG_PATH_DELIMITER);
            lemma_walk_keeps_known(
                first_pool,
                table.names,
                path.take(cut),
                empty.push(name),
                path,
                name,
            );
            lemma_walk_extends_pending(first_pool, table.names, path.take(cut), empty.push(name));
            assert(empty.push(name)[0] == name);
        }
        assert(pending[0] == name);
        lemma_settle_registers_first(table, pending, base);
    }
    assert(is_known_as(pool_after, path, name));
    assert(try_interned(pool_after, path) == Some((pool_after, name)));
    assert(table_after.names.contains_key(name) && table_after.names[name] == index);
    assert(walked(pool_after, table_after.names, path, empty) == Some(
        (pool_after, empty, Some(index)),
    ));
    assert(settled(table_after, empty, Some(index)) == Some((table_after, Some(index))));
}

/// Every name of the registry leads to a registered tag.
pub open spec fn names_lead_to_tags(table: TagTableView) -> bool {
    forall|name: u32| #[trigger]
        table.names.contains_key(name) ==> table.names[name] < table.parents.len()
}

/// A request keeps every name leading to a registered tag, and yields a
/// registered tag.
pub proof fn lemma_request_yields_registered_tag(
    pool: PoolView,
    table: TagTableView,
    path: Seq<char>,
)
    requires
        names_lead_to_tags(table),
        table.parents.len() <= MAX_TAG_COUNTS,
        requested_by_descent(pool, table, path).is_some(),
    ensures
        names_lead_to_tags(requested_by_descent(pool, table, path).unwrap().1),
        requested_by_descent(pool, table, path).unwrap().1.parents.len() <= MAX_TAG_COUNTS,
        requested_by_descent(pool, table, path).unwrap().2 < requested_by_descent(
            pool,
            table,
            path,
        ).unwrap().1.parents.len(),
    decreases path.len(),
{
    let (after, name) = try_interned(pool, path).unwrap();
    if !table.names.contains_key(name) {
        let cut = last_delimiter(path, TAG_PATH_DELIMITER);
        if cut >= 0 {
            lemma_last_delimiter(path, TAG_PATH_DELIMITER);
            lemma_request_yields_registered_tag(after, table, path.take(cut));
            let (_, above, parent) = requested_by_descent(after, table, path.take(cut)).unwrap();
            let grown = registered(above, name, Some(parent)).0;
            assert forall|other: u32| #[trigger] grown.names.contains_key(other) implies grown.names[other]
                < grown.parents.len() by {
                if other != name {
                    assert(above.names.contains_key(other));
                }
            }
        } else {
            let grown = registered(table, name, None).0;
            assert forall|other: u32| #[trigger] grown.names.contains_key(other) implies grown.names[other]
                < grown.parents.len() by {
                if other != name {
                    assert(table.names.contains_key(other));
                }
            }
        }
    }
}

/// A tag that a request registers lies below the tag of the path before its
/// last delimiter: that tag and every tag above it is an ancestor of the new
/// tag, so that adding the new tag grants them all.
pub proof fn law_requested_tag_lies_below_its_parent_path(
    pool: PoolView,
    table: TagTableView,
    path: Seq<char>,
    ancestor: int,
)
    requires
        names_lead_to_tags(table),
        table.parents.len() <= MAX_TAG_COUNTS,
        requested_by_descent(pool, table, path).is_some(),
        last_delimiter(path, TAG_PATH_DELIMITER) >= 0,
        !table.names.contains_key(try_interned(pool, path).unwrap().1),
        ({
            let above = requested_by_descent(
                try_interned(pool, path).unwrap().0,
                table,
                path.take(last_delimiter(path, TAG_PATH_DELIMITER)),
            ).unwrap();
            !above.1.names.contains_key(try_interned(pool, path).unwrap().1)
                && is_ancestor_or_self(above.1.parents, ancestor, above.2 as int)
        }),
    ensures
        ({
            let (_, after, index) = requested_by_descent(pool, table, path).unwrap();
            is_ancestor_or_self(after.parents, ancestor, index as int)
        }),
{
    let (interned_pool, name) = try_interned(pool, path).unwrap();
    let cut = last_delimiter(path, TAG_PATH_DELIMITER);
    lemma_last_delimiter(path, TAG_PATH_DELIMITER);
    lemma_request_yields_registered_tag(interned_pool, table, path.take(cut));
    let (_, above, parent) = requested_by_descent(interned_pool, table, path.take(cut)).unwrap();
    let (_, after, index) = requested_by_descent(pool, table, path).unwrap();
    assert(after.parents == above.parents.push(Some(parent)));
    assert(index == above.parents.len());
    lemma_ancestors_kept(above.parents, Some(parent), ancestor, parent as int);
    assert(after.parents[index as int] == Some(parent));
}

} // verus!
