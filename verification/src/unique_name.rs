use bevy::platform::collections::HashMap;
use vstd::prelude::*;
use crate::tables::{
    compute_hash, fixed_hash, hash_table_clear, hash_table_entries, hash_table_get,
    hash_table_insert, hash_table_new, no_hash_entries,
};

verus! {

/// An interned name: the position of its text in the pool that made it.
#[derive(Debug, Clone, Copy, PartialEq, Eq, Hash, Structural)]
pub struct UniqueName(u32);

impl UniqueName {
    /// The pool position this name stands for.
    pub closed spec fn pool_index(self) -> u32 {
        self.0
    }

    /// The pool position this name stands for.
    pub fn index(&self) -> (index: u32)
        ensures
            index == self.pool_index(),
    {
        self.0
    }
}

/// What a pool holds: the stored texts by position, and the position recorded
/// for the hash of each stored text.
pub struct PoolView {
    pub names: Seq<Seq<char>>,
    pub lookup: Map<u64, u32>,
}

/// The pool after interning `text`, whose hash is `hash`, and the position
/// that `text` is known by: the empty text is position 0; a text whose hash
/// is recorded has the recorded position; any other text is stored at the
/// end and its hash recorded.
pub open spec fn interned_with(pool: PoolView, text: Seq<char>, hash: u64) -> (PoolView, u32) {
    if text.len() == 0 {
        (pool, 0)
    } else if pool.lookup.contains_key(hash) {
        (pool, pool.lookup[hash])
    } else {
        (
            PoolView {
                names: pool.names.push(text),
                lookup: pool.lookup.insert(hash, pool.names.len() as u32),
            },
            pool.names.len() as u32,
        )
    }
}

/// The pool after interning `text` under its fixed hash, and the position
/// that `text` is known by.
pub open spec fn interned(pool: PoolView, text: Seq<char>) -> (PoolView, u32) {
    interned_with(pool, text, fixed_hash(text))
}

/// The pool after interning `text`, whose hash is `hash`, and the position
/// that `text` is known by; nothing where the text would have to be stored
/// and the pool is full.
pub open spec fn try_interned_with(pool: PoolView, text: Seq<char>, hash: u64) -> Option<
    (PoolView, u32),
> {
    if text.len() != 0 && !pool.lookup.contains_key(hash) && pool.names.len() >= u32::MAX {
        None
    } else {
        Some(interned_with(pool, text, hash))
    }
}

/// The pool after interning `text` under its fixed hash, and the position
/// that `text` is known by; nothing where the text would have to be stored
/// and the pool is full.
pub open spec fn try_interned(pool: PoolView, text: Seq<char>) -> Option<(PoolView, u32)> {
    try_interned_with(pool, text, fixed_hash(text))
}

/// Interns texts: each distinct text is stored once and is known afterwards by
/// its position. Position 0 always holds the empty text.
pub struct UniqueNamePool {
    entry_pool: Vec<String>,
    lookup_hash: HashMap<u64, u32>,
}

impl View for UniqueNamePool {
    type V = PoolView;

    closed spec fn view(&self) -> PoolView {
        PoolView {
            names: Seq::new(self.entry_pool.len() as nat, |i: int| self.entry_pool[i]@),
            lookup: hash_table_entries(self.lookup_hash),
        }
    }
}

impl UniqueNamePool {
    /// Position 0 holds the empty text, and every recorded position is that of
    /// a stored text other than the empty one.
    pub open spec fn wf(&self) -> bool {
        &&& 1 <= self@.names.len() <= u32::MAX
        &&& self@.names[0].len() == 0
        &&& forall|hash: u64| #[trigger]
            self@.lookup.contains_key(hash) ==> 1 <= self@.lookup[hash] < self@.names.len()
    }

    /// How many texts are stored, the empty one included.
    pub fn len(&self) -> (count: usize)
        ensures
            count == self@.names.len(),
    {
        self.entry_pool.len()
    }

    /// Interns `name`, taking `hash` for its hash.
    pub fn get_or_insert_hashed(&mut self, name: &str, hash: u64) -> (index: u32)
        requires
            old(self).wf(),
            old(self)@.names.len() < u32::MAX,
        ensures
            final(self).wf(),
            (final(self)@, index) == interned_with(old(self)@, name@, hash),
    {
        if name.is_empty() {
            return 0;
        }
        if let Some(index) = hash_table_get(&self.lookup_hash, hash) {
            return index;
        }
        let new_index = self.entry_pool.len() as u32;
        let ghost before = self@;
        self.entry_pool.push(name.to_owned());
        hash_table_insert(&mut self.lookup_hash, hash, new_index);
        proof {
            assert(self@.names =~= before.names.push(name@));
            assert(self@.lookup == before.lookup.insert(hash, new_index));
            assert forall|other: u64| #[trigger] self@.lookup.contains_key(other) implies 1
                <= self@.lookup[other] < self@.names.len() by {
                if other != hash {
                    assert(before.lookup.contains_key(other));
                }
            }
        }
        new_index
    }

    /// Interns `name`, taking `hash` for its hash, unless the text would have
    /// to be stored and the pool is full.
    pub fn try_get_or_insert_hashed(&mut self, name: &str, hash: u64) -> (found: Option<u32>)
        requires
            old(self).wf(),
        ensures
            final(self).wf(),
            match try_interned_with(old(self)@, name@, hash) {
                Some((pool, index)) => found == Some(index) && final(self)@ == pool,
                None => found.is_none() && final(self)@ == old(self)@,
            },
    {
        if name.is_empty() {
            return Some(0);
        }
        if let Some(index) = hash_table_get(&self.lookup_hash, hash) {
            return Some(index);
        }
        if self.entry_pool.len() >= u32::MAX as usize {
            return None;
        }
        Some(self.get_or_insert_hashed(name, hash))
    }

    /// Interns `name` under its fixed hash, unless the text would have to be
    /// stored and the pool is full.
    pub fn try_new_name(&mut self, name: &str) -> (found: Option<UniqueName>)
        requires
            old(self).wf(),
        ensures
            final(self).wf(),
            match try_interned(old(self)@, name@) {
                Some((pool, index)) => found matches Some(unique) && unique.pool_index() == index
                    && final(self)@ == pool,
                None => found.is_none() && final(self)@ == old(self)@,
            },
    {
        let hash = compute_hash(name);
        match self.try_get_or_insert_hashed(name, hash) {
            Some(index) => Some(UniqueName(index)),
            None => None,
        }
    }

    /// Interns `name` under its fixed hash.
    pub fn new_name(&mut self, name: &str) -> (unique: UniqueName)
        requires
            old(self).wf(),
            old(self)@.names.len() < u32::MAX,
        ensures
            final(self).wf(),
            (final(self)@, unique.pool_index()) == interned(old(self)@, name@),
    {
        let hash = compute_hash(name);
        UniqueName(self.get_or_insert_hashed(name, hash))
    }

    /// The text stored at the position of `name`, or the empty text where the
    /// pool has no such position.
    pub fn get_display_str(&self, name: &UniqueName) -> (text: &str)
        requires
            self.wf(),
        ensures
            text@ == (if name.pool_index() < self@.names.len() {
                self@.names[name.pool_index() as int]
            } else {
                Seq::<char>::empty()
            }),
    {
        let index = name.0 as usize;
        if index < self.entry_pool.len() {
            self.entry_pool[index].as_str()
        } else {
            assert(self@.names[0] =~= Seq::<char>::empty());
            self.entry_pool[0].as_str()
        }
    }

    /// Forgets every text but the empty one at position 0.
    pub fn clear(&mut self)
        requires
            old(self).wf(),
        ensures
            final(self).wf(),
            final(self)@.names == old(self)@.names.take(1),
            final(self)@.lookup == no_hash_entries(),
    {
        let ghost before = self@;
        hash_table_clear(&mut self.lookup_hash);
        self.entry_pool.truncate(1);
        proof {
            assert(self@.names =~= before.names.take(1));
        }
    }
}

impl Default for UniqueNamePool {
    fn default() -> (pool: Self)
        ensures
            pool.wf(),
            pool@.names.len() == 1,
            pool@.lookup == no_hash_entries(),
    {
        let mut pool = Self { entry_pool: Vec::new(), lookup_hash: hash_table_new() };
        pool.entry_pool.push(String::new());
        pool
    }
}

} // verus!
