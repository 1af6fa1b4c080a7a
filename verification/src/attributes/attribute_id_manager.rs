use bevy::platform::collections::HashMap;
use vstd::prelude::*;
use crate::settings::ATTRIBUTE_SET_SIZE;
use crate::tables::{
    name_table_entries, name_table_get, name_table_insert, name_table_new, no_name_entries,
};
use crate::unique_name::{try_interned, PoolView, UniqueName, UniqueNamePool};

verus! {

/// A registered attribute, known by its slot in every attribute table.
#[derive(Debug, Clone, Copy, PartialEq, Eq, Hash, Structural)]
pub struct AttributeId(u16);

impl AttributeId {
    /// The slot this attribute stands for.
    pub closed spec fn slot(self) -> u16 {
        self.0
    }

    /// The attribute of the slot `index`.
    pub fn new(index: u16) -> (id: Self)
        ensures
            id.slot() == index,
    {
        Self(index)
    }

    /// The slot, as an index.
    pub fn to_index(self) -> (index: usize)
        ensures
            index == self.slot(),
    {
        self.0 as usize
    }

    /// An attribute is its slot and nothing else.
    pub proof fn lemma_same_slot_same_id(self, other: Self)
        requires
            self.slot() == other.slot(),
        ensures
            self == other,
    {
    }
}

/// What an attribute registry holds: the slot registered under each interned
/// name, and how many slots are taken.
pub struct AttributeTableView {
    pub names: Map<u32, u16>,
    pub count: nat,
}

/// The registry after registering `name`, and the slot that `name` is
/// registered under: a name that is registered keeps its slot; a new name
/// gets the next free one.
pub open spec fn registered_attribute(table: AttributeTableView, name: u32) -> (
    AttributeTableView,
    u16,
) {
    if table.names.contains_key(name) {
        (table, table.names[name])
    } else {
        (
            AttributeTableView {
                names: table.names.insert(name, table.count as u16),
                count: table.count + 1,
            },
            table.count as u16,
        )
    }
}

/// What requesting the attribute of `name` comes to: the pool and the
/// registry afterwards, and the slot of the attribute. There is no outcome
/// where the pool or the registry is full when one more entry is needed.
pub open spec fn requested_attribute(
    pool: PoolView,
    table: AttributeTableView,
    name: Seq<char>,
) -> Option<(PoolView, AttributeTableView, u16)> {
    match try_interned(pool, name) {
        None => None,
        Some((pool, unique)) => {
            if !table.names.contains_key(unique) && table.count >= ATTRIBUTE_SET_SIZE {
                None
            } else {
                let (table, slot) = registered_attribute(table, unique);
                Some((pool, table, slot))
            }
        },
    }
}

/// The registry of attributes: the slot given to each name.
pub struct AttributeIdManager {
    name_to_index: HashMap<u32, u16>,
    next_id_index: u16,
}

impl View for AttributeIdManager {
    type V = AttributeTableView;

    closed spec fn view(&self) -> AttributeTableView {
        AttributeTableView {
            names: name_table_entries(self.name_to_index),
            count: self.next_id_index as nat,
        }
    }
}

impl AttributeIdManager {
    /// No more slots are taken than a table has, and every name leads to a
    /// slot that is taken.
    pub open spec fn wf(&self) -> bool {
        &&& self@.count <= ATTRIBUTE_SET_SIZE
        &&& forall|name: u32| #[trigger]
            self@.names.contains_key(name) ==> self@.names[name] < self@.count
    }

    /// How many attributes are registered.
    pub fn attribute_count(&self) -> (count: usize)
        ensures
            count == self@.count,
    {
        self.next_id_index as usize
    }

    /// The attribute registered under `unique_name`, if there is one.
    pub fn get_attribute_id(&self, unique_name: UniqueName) -> (found: Option<AttributeId>)
        ensures
            found.is_some() == self@.names.contains_key(unique_name.pool_index()),
            found matches Some(id) ==> id.slot() == self@.names[unique_name.pool_index()],
    {
        match name_table_get(&self.name_to_index, unique_name.index()) {
            Some(index) => Some(AttributeId::new(index)),
            None => None,
        }
    }

    /// Registers `unique_name` unless it is registered already.
    pub fn register_id_internal(&mut self, unique_name: UniqueName) -> (id: AttributeId)
        requires
            old(self).wf(),
            old(self)@.names.contains_key(unique_name.pool_index()) || old(self)@.count
                < ATTRIBUTE_SET_SIZE,
        ensures
            final(self).wf(),
            (final(self)@, id.slot()) == registered_attribute(old(self)@, unique_name.pool_index()),
    {
        if let Some(index) = name_table_get(&self.name_to_index, unique_name.index()) {
            return AttributeId::new(index);
        }
        let new_index = self.next_id_index;
        let ghost before = self@;
        let attribute_id = AttributeId::new(new_index);
        name_table_insert(&mut self.name_to_index, unique_name.index(), new_index);
        self.next_id_index = new_index + 1;
        proof {
            assert forall|name: u32| #[trigger] self@.names.contains_key(name) implies self@.names[name]
                < self@.count by {
                if name != unique_name.pool_index() {
                    assert(before.names.contains_key(name));
                }
            }
        }
        attribute_id
    }
}

impl Default for AttributeIdManager {
    fn default() -> (manager: Self)
        ensures
            manager.wf(),
            manager@.names == no_name_entries(),
            manager@.count == 0,
    {
        Self { name_to_index: name_table_new(), next_id_index: 0 }
    }
}

/// Hands out attributes by name: it interns the name in the pool and
/// registers the attribute in the registry.
pub struct AttributeIdRegister<'w> {
    pub unique_name_pool: &'w mut UniqueNamePool,
    pub attribute_id_manager: &'w mut AttributeIdManager,
}

impl<'w> AttributeIdRegister<'w> {
    /// The attribute of `attribute_id_name`, registered now if it was not
    /// before. Nothing is returned where the pool or the registry is full
    /// when one more entry is needed.
    pub fn request_or_register_attribute_id(&mut self, attribute_id_name: &str) -> (found: Option<
        AttributeId,
    >)
        requires
            old(self).unique_name_pool.wf(),
            old(self).attribute_id_manager.wf(),
        ensures
            *final(final(self).unique_name_pool) == *final(old(self).unique_name_pool),
            *final(final(self).attribute_id_manager) == *final(old(self).attribute_id_manager),
            final(self).unique_name_pool.wf(),
            final(self).attribute_id_manager.wf(),
            match requested_attribute(
                old(self).unique_name_pool@,
                old(self).attribute_id_manager@,
                attribute_id_name@,
            ) {
                Some((pool, table, slot)) => {
                    &&& found matches Some(id) && id.slot() == slot
                    &&& final(self).unique_name_pool@ == pool
                    &&& final(self).attribute_id_manager@ == table
                },
                None => found.is_none() && final(self).attribute_id_manager@ == old(
                    self,
                ).attribute_id_manager@,
            },
    {
        let unique_name = match self.unique_name_pool.try_new_name(attribute_id_name) {
            Some(unique_name) => unique_name,
            None => {
                return None;
            },
        };
        if let Some(attribute_id) = self.attribute_id_manager.get_attribute_id(unique_name) {
            return Some(attribute_id);
        }
        if self.attribute_id_manager.attribute_count() >= ATTRIBUTE_SET_SIZE {
            return None;
        }
        Some(self.attribute_id_manager.register_id_internal(unique_name))
    }
}

} // verus!
