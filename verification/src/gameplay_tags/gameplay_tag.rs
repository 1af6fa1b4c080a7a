use vstd::prelude::*;
use crate::gameplay_tags::gameplay_tag_bits::MAX_TAG_COUNTS;
use crate::gameplay_tags::gameplay_tag_manager::{registered, GameplayTagManager, TagTableView};
use crate::paths::{last_delimiter, lemma_last_delimiter, parent_path};
use crate::unique_name::{try_interned, PoolView, UniqueName, UniqueNamePool};

verus! {

/// The character that parts a tag's path into the names of its ancestors and
/// its own.
pub const TAG_PATH_DELIMITER: char = '.';

/// A registered label, known by its bit position in every tag bitset.
#[derive(Debug, Clone, Copy, PartialEq, Eq, Hash, Structural)]
pub struct GameplayTag(u16);

impl GameplayTag {
    /// The bit position this tag stands for.
    pub closed spec fn bit_index(self) -> u16 {
        self.0
    }

    /// The tag of the bit position `tag_bit_index`.
    pub fn new(tag_bit_index: u16) -> (tag: Self)
        ensures
            tag.bit_index() == tag_bit_index,
    {
        Self(tag_bit_index)
    }

    /// The bit position, as it is stored.
    pub fn get_bit_index_u16(&self) -> (index: u16)
        ensures
            index == self.bit_index(),
    {
        self.0
    }

    /// The bit position, as an index.
    pub fn get_bit_index_usize(&self) -> (index: usize)
        ensures
            index == self.bit_index(),
    {
        self.0 as usize
    }

    /// A tag is its bit position and nothing else.
    pub proof fn lemma_same_index_same_tag(self, other: Self)
        requires
            self.bit_index() == other.bit_index(),
        ensures
            self == other,
    {
    }
}

/// The walk from `path` up through its ancestors' paths: each path is
/// interned, and the walk ends at the first whose name `tags` knows, or
/// above the topmost. It yields the pool after the walk, the names met that
/// `tags` does not know, `pending` before them, and the index of the known
/// name where the walk ended at one. There is no outcome where a path would
/// have to be stored in a pool that is full.
pub open spec fn walked(
    pool: PoolView,
    tags: Map<u32, u16>,
    path: Seq<char>,
    pending: Seq<u32>,
) -> Option<(PoolView, Seq<u32>, Option<u16>)>
    decreases path.len(),
{
    match try_interned(pool, path) {
        None => None,
        Some((pool, name)) => {
            if tags.contains_key(name) {
                Some((pool, pending, Some(tags[name])))
            } else {
                let cut = last_delimiter(path, TAG_PATH_DELIMITER);
                if cut >= 0 {
                    proof {
                        lemma_last_delimiter(path, TAG_PATH_DELIMITER);
                    }
                    walked(pool, tags, path.take(cut), pending.push(name))
                } else {
                    Some((pool, pending.push(name), None))
                }
            }
        },
    }
}

/// The registration of the names of `pending`, last to first, each below the
/// one registered before it and the first below `parent`. It yields the
/// registry afterwards and the index of the name registered last, or `parent`
/// where there was none. There is no outcome where a new name would have to
/// be registered in a registry that is full.
pub open spec fn settled(table: TagTableView, pending: Seq<u32>, parent: Option<u16>) -> Option<
    (TagTableView, Option<u16>),
>
    decreases pending.len(),
{
    if pending.len() == 0 {
        Some((table, parent))
    } else if !table.names.contains_key(pending.last()) && table.parents.len() >= MAX_TAG_COUNTS {
        None
    } else {
        let (table, index) = registered(table, pending.last(), parent);
        settled(table, pending.drop_last(), Some(index))
    }
}

/// What requesting the tag of `path` comes to, said in the order in which it
/// is carried out: the paths of `path` and of its ancestors are interned,
/// nearest first, up to the first whose name is registered; then the others
/// are registered, topmost first, each below the one above it. There is no
/// outcome where the pool or the registry is full when one more entry is
/// needed.
pub open spec fn requested(pool: PoolView, table: TagTableView, path: Seq<char>) -> Option<
    (PoolView, TagTableView, u16),
> {
    match walked(pool, table.names, path, Seq::empty()) {
        Some((pool, pending, base)) => match settled(table, pending, base) {
            Some((table, Some(index))) => Some((pool, table, index)),
            _ => None,
        },
        None => None,
    }
}

/// The registry after the name `name` was registered below `parent`, with
/// the pool handed through, and the index of the name; nothing where the name
/// is new and the registry is full.
pub open spec fn registered_if_room(
    pool: PoolView,
    table: TagTableView,
    name: u32,
    parent: Option<u16>,
) -> Option<(PoolView, TagTableView, u16)> {
    if !table.names.contains_key(name) && table.parents.len() >= MAX_TAG_COUNTS {
        None
    } else {
        Some((pool, registered(table, name, parent).0, registered(table, name, parent).1))
    }
}

/// What requesting the tag of `path` comes to: the pool and the registry
/// afterwards, and the index of the tag. The path is interned; a path whose
/// name is registered yields its tag; any other has the tag of the path
/// before its last delimiter requested first, where it has a delimiter, and
/// is then registered below that tag, or as a root where it has none. There
/// is no outcome where the pool or the registry is full when one more entry
/// is needed.
pub open spec fn requested_by_descent(pool: PoolView, table: TagTableView, path: Seq<char>) -> Option<
    (PoolView, TagTableView, u16),
>
    decreases path.len(),
{
    match try_interned(pool, path) {
        None => None,
        Some((pool, name)) => {
            if table.names.contains_key(name) {
                Some((pool, table, table.names[name]))
            } else {
                let cut = last_delimiter(path, TAG_PATH_DELIMITER);
                if cut >= 0 {
                    proof {
                        lemma_last_delimiter(path, TAG_PATH_DELIMITER);
                    }
                    match requested_by_descent(pool, table, path.take(cut)) {
                        Some((pool, table, parent)) => registered_if_room(
                            pool,
                            table,
                            name,
                            Some(parent),
                        ),
                        None => None,
                    }
                } else {
                    registered_if_room(pool, table, name, None)
                }
            }
        },
    }
}

/// A walk always ends at a known name or with a name pending.
pub proof fn lemma_walk_finds_something(
    pool: PoolView,
    tags: Map<u32, u16>,
    path: Seq<char>,
    pending: Seq<u32>,
)
    ensures
        walked(pool, tags, path, pending) matches Some((_, found, base)) ==> base.is_some()
            || found.len() > 0,
    decreases path.len(),
{
    if let Some((after, name)) = try_interned(pool, path) {
        let cut = last_delimiter(path, TAG_PATH_DELIMITER);
        if !tags.contains_key(name) && cut >= 0 {
            lemma_last_delimiter(path, TAG_PATH_DELIMITER);
            lemma_walk_finds_something(after, tags, path.take(cut), pending.push(name));
        }
    }
}

/// A registration that starts below a tag or has a name to register ends with
/// a tag.
pub proof fn lemma_settle_yields_tag(table: TagTableView, pending: Seq<u32>, parent: Option<u16>)
    requires
        parent.is_some() || pending.len() > 0,
    ensures
        settled(table, pending, parent) matches Some((_, index)) ==> index.is_some(),
    decreases pending.len(),
{
    if pending.len() > 0 && (table.names.contains_key(pending.last()) || table.parents.len()
        < MAX_TAG_COUNTS) {
        let (after, index) = registered(table, pending.last(), parent);
        lemma_settle_yields_tag(after, pending.drop_last(), Some(index));
    }
}

/// The outcome of a walk from `path` followed by the registration of what is
/// pending, or nothing where either has no outcome.
pub open spec fn walked_and_settled(
    pool: PoolView,
    table: TagTableView,
    path: Seq<char>,
    pending: Seq<u32>,
) -> Option<(PoolView, TagTableView, Option<u16>)> {
    match walked(pool, table.names, path, pending) {
        Some((pool, pending, base)) => match settled(table, pending, base) {
            Some((table, index)) => Some((pool, table, index)),
            None => None,
        },
        None => None,
    }
}

/// A walk from `path` with names pending, followed by the registration of
/// all that is pending, comes to the same as requesting the tag of `path`
/// from the top down and registering below it the names that were pending.
pub proof fn lemma_walk_is_descent(
    pool: PoolView,
    table: TagTableView,
    path: Seq<char>,
    pending: Seq<u32>,
)
    ensures
        walked_and_settled(pool, table, path, pending) == (match requested_by_descent(
            pool,
            table,
            path,
        ) {
            Some((pool, table, index)) => match settled(table, pending, Some(index)) {
                Some((table, last)) => Some((pool, table, last)),
                None => None,
            },
            None => None,
        }),
    decreases path.len(),
{
    if let Some((after, name)) = try_interned(pool, path) {
        if !table.names.contains_key(name) {
            let cut = last_delimiter(path, TAG_PATH_DELIMITER);
            let longer = pending.push(name);
            assert(longer.last() == name);
            assert(longer.drop_last() =~= pending);
            if cut >= 0 {
                lemma_last_delimiter(path, TAG_PATH_DELIMITER);
                lemma_walk_is_descent(after, table, path.take(cut), longer);
                if let Some((pool_above, table_above, parent)) = requested_by_descent(
                    after,
                    table,
                    path.take(cut),
                ) {
                    assert(settled(table_above, longer, Some(parent)) == (if !table_above.names.contains_key(
                        name,
                    ) && table_above.parents.len() >= MAX_TAG_COUNTS {
                        None
                    } else {
                        settled(
                            registered(table_above, name, Some(parent)).0,
                            pending,
                            Some(registered(table_above, name, Some(parent)).1),
                        )
                    }));
                }
            } else {
                assert(settled(table, longer, None) == (if !table.names.contains_key(name)
                    && table.parents.len() >= MAX_TAG_COUNTS {
                    None
                } else {
                    settled(
                        registered(table, name, None).0,
                        pending,
                        Some(registered(table, name, None).1),
                    )
                }));
            }
        }
    }
}

/// Walking up from a path and then registering what is pending comes to what
/// the description from the top down says.
pub proof fn lemma_request_is_descent(
    pool: PoolView,
    table: TagTableView,
    path: Seq<char>,
)
    ensures
        requested(pool, table, path) == requested_by_descent(pool, table, path),
{
    let empty = Seq::<u32>::empty();
    lemma_walk_is_descent(pool, table, path, empty);
    if let Some((pool_after, table_after, index)) = requested_by_descent(pool, table, path) {
        assert(settled(table_after, empty, Some(index)) == Some((table_after, Some(index))));
    }
}

/// Hands out tags by path: it interns the path in the pool and registers the
/// tag, and every ancestor that is missing, in the registry.
pub struct GameplayTagRegister<'w> {
    pub unique_name_pool: &'w mut UniqueNamePool,
    pub gameplay_tag_manager: &'w mut GameplayTagManager,
}

impl<'w> GameplayTagRegister<'w> {
    /// The tag of `full_tag_name`, registered now if it was not before, with
    /// every ancestor that was missing. Nothing is returned where the pool or
    /// the registry is full when one more entry is needed.
    pub fn request_or_register_tag(&mut self, full_tag_name: &str) -> (found: Option<GameplayTag>)
        requires
            old(self).unique_name_pool.wf(),
            old(self).gameplay_tag_manager.wf(),
        ensures
            *final(final(self).unique_name_pool) == *final(old(self).unique_name_pool),
            *final(final(self).gameplay_tag_manager) == *final(old(self).gameplay_tag_manager),
            final(self).unique_name_pool.wf(),
            final(self).gameplay_tag_manager.wf(),
            match requested_by_descent(
                old(self).unique_name_pool@,
                old(self).gameplay_tag_manager@,
                full_tag_name@,
            ) {
                Some((pool, table, index)) => {
                    &&& found matches Some(tag) && tag.bit_index() == index
                    &&& final(self).unique_name_pool@ == pool
                    &&& final(self).gameplay_tag_manager@ == table
                },
                None => found.is_none(),
            },
    {
        let ghost pool_before = self.unique_name_pool@;
        let ghost table_before = self.gameplay_tag_manager@;
        proof {
            lemma_request_is_descent(pool_before, table_before, full_tag_name@);
        }
        let mut pending: Vec<UniqueName> = Vec::new();
        let ghost mut names: Seq<u32> = Seq::empty();
        let mut path: &str = full_tag_name;
        let mut base: Option<u16> = None;
        let mut walking = true;
        while walking
            invariant
                self.unique_name_pool.wf(),
                self.gameplay_tag_manager.wf(),
                self.gameplay_tag_manager@ == table_before,
                pool_before == old(self).unique_name_pool@,
                table_before == old(self).gameplay_tag_manager@,
                requested(pool_before, table_before, full_tag_name@) == requested_by_descent(
                    pool_before,
                    table_before,
                    full_tag_name@,
                ),
                *final(self.unique_name_pool) == *final(old(self).unique_name_pool),
                *final(self.gameplay_tag_manager) == *final(old(self).gameplay_tag_manager),
                walking ==> base.is_none(),
                names.len() == pending.len(),
                forall|k: int| 0 <= k < names.len() ==> names[k] == (#[trigger] pending[k]).pool_index(),
                walking ==> walked(pool_before, table_before.names, full_tag_name@, Seq::empty())
                    == walked(self.unique_name_pool@, table_before.names, path@, names),
                !walking ==> walked(pool_before, table_before.names, full_tag_name@, Seq::empty())
                    == Some((self.unique_name_pool@, names, base)),
            decreases path@.len() + (if walking { 1nat } else { 0nat }),
        {
            let unique = match self.unique_name_pool.try_new_name(path) {
                Some(unique) => unique,
                None => {
                    return None;
                },
            };
            match self.gameplay_tag_manager.get_tag(unique) {
                Some(tag) => {
                    base = Some(tag.get_bit_index_u16());
                    walking = false;
                },
                None => {
                    pending.push(unique);
                    proof {
                        names = names.push(unique.pool_index());
                        lemma_last_delimiter(path@, TAG_PATH_DELIMITER);
                    }
                    match parent_path(path, TAG_PATH_DELIMITER) {
                        Some(head) => {
                            path = head;
                        },
                        None => {
                            walking = false;
                        },
                    }
                },
            }
        }
        proof {
            lemma_walk_finds_something(
                pool_before,
                table_before.names,
                full_tag_name@,
                Seq::empty(),
            );
            lemma_settle_yields_tag(table_before, names, base);
        }
        let ghost pool_after = self.unique_name_pool@;
        let ghost all_names = names;
        let ghost first_base = base;
        let mut parent: Option<u16> = base;
        while pending.len() > 0
            invariant
                self.unique_name_pool.wf(),
                self.unique_name_pool@ == pool_after,
                self.gameplay_tag_manager.wf(),
                pool_before == old(self).unique_name_pool@,
                table_before == old(self).gameplay_tag_manager@,
                requested(pool_before, table_before, full_tag_name@) == requested_by_descent(
                    pool_before,
                    table_before,
                    full_tag_name@,
                ),
                *final(self.unique_name_pool) == *final(old(self).unique_name_pool),
                *final(self.gameplay_tag_manager) == *final(old(self).gameplay_tag_manager),
                walked(pool_before, table_before.names, full_tag_name@, Seq::empty()) == Some(
                    (pool_after, all_names, first_base),
                ),
                settled(table_before, all_names, first_base) matches Some((_, index))
                    ==> index.is_some(),
                names.len() == pending.len(),
                forall|k: int| 0 <= k < names.len() ==> names[k] == (#[trigger] pending[k]).pool_index(),
                settled(table_before, all_names, first_base) == settled(
                    self.gameplay_tag_manager@,
                    names,
                    parent,
                ),
            decreases pending.len(),
        {
            let unique = pending.pop().unwrap();
            proof {
                assert(unique.pool_index() == names.last());
                self.gameplay_tag_manager.lemma_wf_bounds();
            }
            if self.gameplay_tag_manager.get_tag(unique).is_none()
                && self.gameplay_tag_manager.tag_count() >= MAX_TAG_COUNTS {
                return None;
            }
            let tag = self.gameplay_tag_manager.register_tag_internal(unique, parent);
            parent = Some(tag.get_bit_index_u16());
            proof {
                names = names.drop_last();
            }
        }
        match parent {
            Some(index) => Some(GameplayTag::new(index)),
            None => None,
        }
    }
}

} // verus!
