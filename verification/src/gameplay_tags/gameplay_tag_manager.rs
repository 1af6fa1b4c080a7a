use bevy::platform::collections::HashMap;
use vstd::prelude::*;
use vstd::set_lib::*;
use crate::gameplay_tags::gameplay_tag::GameplayTag;
use crate::gameplay_tags::gameplay_tag_bits::{
    add_bit_with_tag, bit_set, bits_contain, empty_tag_bits, GameplayTagBits, MAX_TAG_COUNTS,
};
use crate::tables::{
    name_table_entries, name_table_get, name_table_insert, name_table_new, no_name_entries,
};
use crate::unique_name::UniqueName;

verus! {

/// Whether `ancestor` is `tag` itself or lies on the chain of parents above
/// it. A recorded parent counts only if it was registered before its child.
pub open spec fn is_ancestor_or_self(parents: Seq<Option<u16>>, ancestor: int, tag: int) -> bool
    decreases tag,
{
    0 <= tag < parents.len() && (ancestor == tag || match parents[tag] {
        Some(parent) => parent < tag && is_ancestor_or_self(parents, ancestor, parent as int),
        None => false,
    })
}

/// Whether `tag` lies strictly below `ancestor`.
pub open spec fn is_descendant(parents: Seq<Option<u16>>, ancestor: int, tag: int) -> bool {
    tag != ancestor && is_ancestor_or_self(parents, ancestor, tag)
}

/// Whether the tag at `index` is held at least once according to `ref_counts`.
pub open spec fn is_active(ref_counts: Seq<u16>, index: int) -> bool {
    0 <= index < ref_counts.len() && ref_counts[index] > 0
}

/// Whether some tag strictly below `tag` is held at least once.
pub open spec fn has_active_descendants(
    parents: Seq<Option<u16>>,
    tag: int,
    ref_counts: Seq<u16>,
) -> bool {
    exists|below: int| #[trigger] is_descendant(parents, tag, below) && is_active(ref_counts, below)
}

/// An ancestor never has a larger index than the tag it is above.
pub proof fn lemma_ancestor_is_not_later(parents: Seq<Option<u16>>, ancestor: int, tag: int)
    requires
        is_ancestor_or_self(parents, ancestor, tag),
    ensures
        ancestor <= tag,
        0 <= tag < parents.len(),
    decreases tag,
{
    if ancestor != tag {
        lemma_ancestor_is_not_later(parents, ancestor, parents[tag].unwrap() as int);
    }
}

/// Registering one more tag leaves the ancestors of the earlier tags as they were.
pub proof fn lemma_ancestors_kept(
    parents: Seq<Option<u16>>,
    added: Option<u16>,
    ancestor: int,
    tag: int,
)
    requires
        0 <= tag < parents.len(),
    ensures
        is_ancestor_or_self(parents.push(added), ancestor, tag) == is_ancestor_or_self(
            parents,
            ancestor,
            tag,
        ),
    decreases tag,
{
    if ancestor != tag {
        if let Some(parent) = parents[tag] {
            if parent < tag {
                lemma_ancestors_kept(parents, added, ancestor, parent as int);
            }
        }
    }
}

/// Below a tag, every path to a descendant starts with one of its children.
pub proof fn lemma_descendant_through_child(parents: Seq<Option<u16>>, ancestor: int, tag: int)
    requires
        is_descendant(parents, ancestor, tag),
        parents.len() <= MAX_TAG_COUNTS,
    ensures
        exists|child: int|
            ancestor < child < parents.len() && parents[child] == Some(ancestor as u16)
                && #[trigger] is_ancestor_or_self(parents, child, tag),
    decreases tag,
{
    let parent = parents[tag].unwrap() as int;
    if parent == ancestor {
        assert(is_ancestor_or_self(parents, tag, tag));
    } else {
        lemma_descendant_through_child(parents, ancestor, parent);
        let child = choose|child: int|
            ancestor < child < parents.len() && parents[child] == Some(ancestor as u16)
                && #[trigger] is_ancestor_or_self(parents, child, parent);
        assert(is_ancestor_or_self(parents, child, tag));
    }
}

/// The children lists say the same as the parent links: each list holds, once
/// each, the later tags that name its owner as their parent.
pub open spec fn children_match_parents(
    parents: Seq<Option<u16>>,
    children: Seq<Seq<u16>>,
) -> bool {
    &&& children.len() == parents.len()
    &&& parents.len() <= MAX_TAG_COUNTS
    &&& forall|owner: int, k: int|
        0 <= owner < children.len() && 0 <= k < children[owner].len() ==> {
            let child = #[trigger] children[owner][k];
            owner < child < parents.len() && parents[child as int] == Some(owner as u16)
        }
    &&& forall|owner: int, j: int, k: int|
        0 <= owner < children.len() && 0 <= j < k < children[owner].len()
            ==> #[trigger] children[owner][j] != #[trigger] children[owner][k]
    &&& forall|owner: int, child: int|
        0 <= owner < child < parents.len() && #[trigger] parents[child] == Some(owner as u16)
            ==> #[trigger] children[owner].contains(child as u16)
}

/// What the search for an active descendant of `root` knows while `stack`
/// holds the tags still to be looked at and `visited` those already seen.
pub open spec fn search_state(
    parents: Seq<Option<u16>>,
    root: int,
    ref_counts: Seq<u16>,
    stack: Seq<u16>,
    visited: Set<int>,
) -> bool {
    &&& forall|k: int| 0 <= k < stack.len() ==> is_descendant(parents, root, #[trigger] stack[k] as int)
    &&& forall|j: int, k: int| 0 <= j < k < stack.len() ==> #[trigger] stack[j] != #[trigger] stack[k]
    &&& forall|k: int| 0 <= k < stack.len() ==> !visited.contains(#[trigger] stack[k] as int)
    &&& forall|seen: int| #[trigger]
        visited.contains(seen) ==> is_descendant(parents, root, seen) && !is_active(
            ref_counts,
            seen,
        )
    &&& forall|below: int| #[trigger]
        is_descendant(parents, root, below) ==> visited.contains(below) || exists|k: int|
            0 <= k < stack.len() && #[trigger] is_ancestor_or_self(parents, stack[k] as int, below)
    &&& forall|node: int|
        0 <= node < parents.len() && (visited.contains(node) || stack.contains(node as u16))
            ==> match #[trigger] parents[node] {
            Some(parent) => parent == root || visited.contains(parent as int),
            None => false,
        }
}

/// The search may start from the children of `root`.
pub proof fn lemma_search_start(
    parents: Seq<Option<u16>>,
    children: Seq<Seq<u16>>,
    root: int,
    ref_counts: Seq<u16>,
)
    requires
        children_match_parents(parents, children),
        0 <= root < parents.len(),
    ensures
        search_state(parents, root, ref_counts, children[root], Set::empty()),
{
    let stack = children[root];
    assert forall|k: int| 0 <= k < stack.len() implies is_descendant(
        parents,
        root,
        #[trigger] stack[k] as int,
    ) by {
        assert(is_ancestor_or_self(parents, root, root));
    }
    assert forall|below: int| #[trigger] is_descendant(parents, root, below) implies exists|k: int|
        0 <= k < stack.len() && #[trigger] is_ancestor_or_self(parents, stack[k] as int, below) by {
        lemma_descendant_through_child(parents, root, below);
        let child = choose|child: int|
            root < child < parents.len() && parents[child] == Some(root as u16)
                && #[trigger] is_ancestor_or_self(parents, child, below);
        assert(children[root].contains(child as u16));
        let k = choose|k: int| 0 <= k < stack.len() && stack[k] == child as u16;
        assert(is_ancestor_or_self(parents, stack[k] as int, below));
    }
}

/// The search goes on after the inactive tag `top` has left the stack and its
/// children have taken its place.
pub proof fn lemma_search_step(
    parents: Seq<Option<u16>>,
    children: Seq<Seq<u16>>,
    root: int,
    ref_counts: Seq<u16>,
    rest: Seq<u16>,
    top: u16,
    visited: Set<int>,
)
    requires
        children_match_parents(parents, children),
        0 <= root < parents.len(),
        search_state(parents, root, ref_counts, rest.push(top), visited),
        !is_active(ref_counts, top as int),
    ensures
        top < parents.len(),
        !visited.contains(top as int),
        search_state(
            parents,
            root,
            ref_counts,
            rest + children[top as int],
            visited.insert(top as int),
        ),
{
    let before = rest.push(top);
    let seen = visited.insert(top as int);
    assert(before[rest.len() as int] == top);
    lemma_ancestor_is_not_later(parents, root, top as int);
    let fresh = children[top as int];
    let stack = rest + fresh;
    assert forall|k: int| 0 <= k < rest.len() implies rest[k] == before[k] && rest[k] != top by {
        assert(before[k] != before[rest.len() as int]);
    }
    assert forall|k: int| 0 <= k < fresh.len() implies parents[#[trigger] fresh[k] as int] == Some(
        top,
    ) && top < fresh[k] < parents.len() by {}
    assert forall|k: int| 0 <= k < stack.len() implies is_descendant(
        parents,
        root,
        #[trigger] stack[k] as int,
    ) by {
        if k >= rest.len() {
            let child = fresh[k - rest.len()];
            assert(stack[k] == child);
            assert(is_ancestor_or_self(parents, root, child as int));
        }
    }
    assert forall|k: int| 0 <= k < fresh.len() implies !visited.contains(
        #[trigger] fresh[k] as int,
    ) && !before.contains(fresh[k]) by {
        let child = fresh[k];
        if visited.contains(child as int) || before.contains(child) {
            assert(parents[child as int] == Some(top));
        }
    }
    assert forall|j: int, k: int| 0 <= j < k < stack.len() implies #[trigger] stack[j]
        != #[trigger] stack[k] by {
        if j < rest.len() && k >= rest.len() {
            assert(before.contains(rest[j]));
            assert(stack[k] == fresh[k - rest.len()]);
        } else if j >= rest.len() {
            assert(stack[j] == fresh[j - rest.len()]);
            assert(stack[k] == fresh[k - rest.len()]);
        }
    }
    assert forall|k: int| 0 <= k < stack.len() implies !seen.contains(#[trigger] stack[k] as int) by {
        if k >= rest.len() {
            assert(stack[k] == fresh[k - rest.len()]);
        }
    }
    assert forall|below: int| #[trigger] is_descendant(parents, root, below) implies seen.contains(
        below,
    ) || exists|k: int|
        0 <= k < stack.len() && #[trigger] is_ancestor_or_self(parents, stack[k] as int, below) by {
        if !visited.contains(below) {
            let k = choose|k: int|
                0 <= k < before.len() && #[trigger] is_ancestor_or_self(
                    parents,
                    before[k] as int,
                    below,
                );
            if k < rest.len() {
                assert(is_ancestor_or_self(parents, stack[k] as int, below));
            } else if below != top {
                lemma_descendant_through_child(parents, top as int, below);
                let child = choose|child: int|
                    top < child < parents.len() && parents[child] == Some(top)
                        && #[trigger] is_ancestor_or_self(parents, child, below);
                assert(fresh.contains(child as u16));
                let at = choose|at: int| 0 <= at < fresh.len() && fresh[at] == child as u16;
                assert(stack[rest.len() + at] == fresh[at]);
                assert(is_ancestor_or_self(parents, stack[rest.len() + at] as int, below));
            }
        }
    }
    assert forall|node: int|
        0 <= node < parents.len() && (seen.contains(node) || stack.contains(
            node as u16,
        )) implies match #[trigger] parents[node] {
        Some(parent) => parent == root || seen.contains(parent as int),
        None => false,
    } by {
        if visited.contains(node) || node == top {
            assert(before.contains(top));
        } else {
            let k = choose|k: int| 0 <= k < stack.len() && stack[k] == node as u16;
            if k < rest.len() {
                assert(before.contains(node as u16));
            } else {
                assert(stack[k] == fresh[k - rest.len()]);
            }
        }
    }
}

/// What a tag registry holds: the index registered under each interned name,
/// and the parent recorded for each registered tag.
pub struct TagTableView {
    pub names: Map<u32, u16>,
    pub parents: Seq<Option<u16>>,
}

/// The registry after registering `name` below `parent`, and the index that
/// `name` is registered under: a name that is registered keeps its index; a
/// new name gets the next free one.
pub open spec fn registered(table: TagTableView, name: u32, parent: Option<u16>) -> (
    TagTableView,
    u16,
) {
    if table.names.contains_key(name) {
        (table, table.names[name])
    } else {
        (
            TagTableView {
                names: table.names.insert(name, table.parents.len() as u16),
                parents: table.parents.push(parent),
            },
            table.parents.len() as u16,
        )
    }
}

/// The registry of tags: the index given to each name, the parent of each
/// tag, and for each tag the bits of itself and of everything above it.
pub struct GameplayTagManager {
    tag_name_to_index: HashMap<u32, u16>,
    tag_parent_index: Vec<Option<u16>>,
    tag_children: Vec<Vec<u16>>,
    tag_inherited_bits: Vec<GameplayTagBits>,
    next_tag_index: u16,
}

impl View for GameplayTagManager {
    type V = TagTableView;

    open spec fn view(&self) -> TagTableView {
        TagTableView { names: self.names(), parents: self.parents() }
    }
}

impl GameplayTagManager {
    /// The index registered under each interned name.
    pub closed spec fn names(&self) -> Map<u32, u16> {
        name_table_entries(self.tag_name_to_index)
    }

    /// The parent recorded for each registered tag, by index.
    pub closed spec fn parents(&self) -> Seq<Option<u16>> {
        self.tag_parent_index@
    }

    /// The children recorded for each registered tag, by index.
    pub closed spec fn children(&self) -> Seq<Seq<u16>> {
        Seq::new(self.tag_children.len() as nat, |i: int| self.tag_children[i]@)
    }

    /// The bits stored for each registered tag, by index.
    pub closed spec fn inherited(&self) -> Seq<GameplayTagBits> {
        self.tag_inherited_bits@
    }

    /// The tables agree with each other: every name leads to a registered
    /// tag, the children lists mirror the parent links, and the bits stored
    /// for a tag are those of the tag and of its ancestors.
    pub closed spec fn wf(&self) -> bool {
        &&& self.next_tag_index == self.parents().len()
        &&& self.parents().len() <= MAX_TAG_COUNTS
        &&& self.inherited().len() == self.parents().len()
        &&& children_match_parents(self.parents(), self.children())
        &&& forall|name: u32| #[trigger]
            self.names().contains_key(name) ==> self.names()[name] < self.parents().len()
        &&& forall|tag: int, index: int|
            0 <= tag < self.parents().len() ==> (#[trigger] bits_contain(
                self.inherited()[tag],
                index,
            ) <==> is_ancestor_or_self(self.parents(), index, tag))
    }

    /// A well-formed registry holds no more tags than the bitsets have bits,
    /// and every name in it leads to one of them.
    pub proof fn lemma_wf_bounds(&self)
        requires
            self.wf(),
        ensures
            self.parents().len() <= MAX_TAG_COUNTS,
            forall|name: u32| #[trigger]
                self.names().contains_key(name) ==> self.names()[name] < self.parents().len(),
    {
    }

    /// How many tags are registered.
    pub fn tag_count(&self) -> (count: usize)
        requires
            self.wf(),
        ensures
            count == self.parents().len(),
    {
        self.tag_parent_index.len()
    }

    /// The tag registered under `unique_name`, if there is one.
    pub fn get_tag(&self, unique_name: UniqueName) -> (found: Option<GameplayTag>)
        ensures
            found.is_some() == self.names().contains_key(unique_name.pool_index()),
            found matches Some(tag) ==> tag.bit_index() == self.names()[unique_name.pool_index()],
    {
        match name_table_get(&self.tag_name_to_index, unique_name.index()) {
            Some(index) => Some(GameplayTag::new(index)),
            None => None,
        }
    }

    /// Registers `unique_name` below `parent_tag_index` unless the name is
    /// registered already. A new tag gets the next free index; its bits are
    /// its own bit and, where the parent is a registered tag, the parent's.
    pub fn register_tag_internal(
        &mut self,
        unique_name: UniqueName,
        parent_tag_index: Option<u16>,
    ) -> (tag: GameplayTag)
        requires
            old(self).wf(),
            old(self).names().contains_key(unique_name.pool_index()) || old(self).parents().len()
                < MAX_TAG_COUNTS,
        ensures
            final(self).wf(),
            (final(self)@, tag.bit_index()) == registered(
                old(self)@,
                unique_name.pool_index(),
                parent_tag_index,
            ),
    {
        if let Some(index) = name_table_get(&self.tag_name_to_index, unique_name.index()) {
            return GameplayTag::new(index);
        }
        let new_index = self.next_tag_index;
        let ghost parents = self.parents();
        let ghost children = self.children();
        let ghost inherited = self.inherited();
        let ghost names = self.names();

        let mut inherited_bits = empty_tag_bits();
        let mut linked = false;
        if let Some(p_index) = parent_tag_index {
            if (p_index as usize) < self.tag_inherited_bits.len() {
                inherited_bits = self.tag_inherited_bits[p_index as usize];
                linked = true;
            }
        }
        let ghost parent_bits = inherited_bits;
        let self_tag = GameplayTag::new(new_index);
        add_bit_with_tag(&mut inherited_bits, &self_tag);

        self.tag_parent_index.push(parent_tag_index);
        self.tag_inherited_bits.push(inherited_bits);
        self.tag_children.push(Vec::new());
        if linked {
            let p_index = parent_tag_index.unwrap() as usize;
            self.tag_children[p_index].push(new_index);
        }
        name_table_insert(&mut self.tag_name_to_index, unique_name.index(), new_index);
        self.next_tag_index = new_index + 1;

        proof {
            let grown = parents.push(parent_tag_index);
            assert(self.parents() == grown);
            let after = self.children();
            assert(after.len() == children.len() + 1);
            assert forall|owner: int| 0 <= owner < children.len() implies #[trigger] after[owner]
                == (if linked && owner == parent_tag_index.unwrap() {
                children[owner].push(new_index)
            } else {
                children[owner]
            }) by {
                assert(after[owner] =~= (if linked && owner == parent_tag_index.unwrap() {
                    children[owner].push(new_index)
                } else {
                    children[owner]
                }));
            }
            assert(after[new_index as int] =~= Seq::<u16>::empty());
            assert forall|owner: int, k: int|
                0 <= owner < after.len() && 0 <= k < after[owner].len() implies {
                let child = #[trigger] after[owner][k];
                owner < child < grown.len() && grown[child as int] == Some(owner as u16)
            } by {
                if owner < children.len() && k < children[owner].len() {
                    assert(after[owner][k] == children[owner][k]);
                }
            }
            assert forall|owner: int, j: int, k: int|
                0 <= owner < after.len() && 0 <= j < k < after[owner].len() implies #[trigger] after[owner][j]
                != #[trigger] after[owner][k] by {
                assert(after[owner][j] == children[owner][j]);
                if k < children[owner].len() {
                    assert(after[owner][k] == children[owner][k]);
                }
            }
            assert forall|owner: int, child: int|
                0 <= owner < child < grown.len() && #[trigger] grown[child] == Some(
                    owner as u16,
                ) implies #[trigger] after[owner].contains(child as u16) by {
                if child < parents.len() {
                    assert(parents[child] == Some(owner as u16));
                    assert(children[owner].contains(child as u16));
                    let k = choose|k: int|
                        0 <= k < children[owner].len() && children[owner][k] == child as u16;
                    assert(after[owner][k] == child as u16);
                } else {
                    assert(after[owner][children[owner].len() as int] == new_index);
                }
            }
            assert(children_match_parents(grown, after));
            assert forall|name: u32| #[trigger] self.names().contains_key(name) implies self.names()[name]
                < grown.len() by {
                if name != unique_name.pool_index() {
                    assert(names.contains_key(name));
                }
            }
            assert forall|tag: int, index: int| 0 <= tag < grown.len() implies (#[trigger] bits_contain(
                self.inherited()[tag],
                index,
            ) <==> is_ancestor_or_self(grown, index, tag)) by {
                if tag < parents.len() {
                    assert(self.inherited()[tag] == inherited[tag]);
                    lemma_ancestors_kept(parents, parent_tag_index, index, tag);
                } else {
                    assert(self.inherited()[tag] == inherited_bits);
                    assert(bit_set(inherited_bits).contains(index) == bit_set(
                        parent_bits,
                    ).insert(new_index as int).contains(index));
                    if linked {
                        let parent = parent_tag_index.unwrap() as int;
                        assert(bits_contain(inherited[parent], index) <==> is_ancestor_or_self(
                            parents,
                            index,
                            parent,
                        ));
                        lemma_ancestors_kept(parents, parent_tag_index, index, parent);
                    } else {
                        assert(!bit_set(parent_bits).contains(index));
                    }
                }
            }
        }
        self_tag
    }

    /// The bits of `tag` and of its ancestors, if `tag` is registered.
    pub fn get_inherited_bits(&self, tag: &GameplayTag) -> (found: Option<&GameplayTagBits>)
        requires
            self.wf(),
        ensures
            found.is_some() == (tag.bit_index() < self.parents().len()),
            found matches Some(bits) ==> forall|index: int| #[trigger]
                bits_contain(*bits, index) <==> is_ancestor_or_self(
                    self.parents(),
                    index,
                    tag.bit_index() as int,
                ),
    {
        let index = tag.get_bit_index_usize();
        if index < self.tag_inherited_bits.len() {
            Some(&self.tag_inherited_bits[index])
        } else {
            None
        }
    }

    /// Whether some tag strictly below `tag_index` is held at least once
    /// according to `ref_counts`.
    pub fn check_has_active_descendants(&self, tag_index: u16, ref_counts: &[u16]) -> (found: bool)
        requires
            self.wf(),
        ensures
            found == has_active_descendants(self.parents(), tag_index as int, ref_counts@),
    {
        let ghost parents = self.parents();
        let ghost children = self.children();
        let root = tag_index as usize;
        if root >= self.tag_children.len() {
            proof {
                assert forall|below: int| !#[trigger] is_descendant(
                    parents,
                    tag_index as int,
                    below,
                ) by {
                    if is_descendant(parents, tag_index as int, below) {
                        lemma_ancestor_is_not_later(parents, tag_index as int, below);
                    }
                }
            }
            return false;
        }
        let mut stack: Vec<u16> = Vec::new();
        let first = &self.tag_children[root];
        let mut k: usize = 0;
        while k < first.len()
            invariant
                k <= first.len(),
                stack@ == first@.take(k as int),
            decreases first.len() - k,
        {
            stack.push(first[k]);
            assert(first@.take(k + 1) =~= first@.take(k as int).push(first@[k as int]));
            k += 1;
        }
        let ghost mut visited: Set<int> = Set::empty();
        proof {
            assert(first@.take(first.len() as int) =~= first@);
            assert(children[root as int] == first@);
            lemma_search_start(parents, children, root as int, ref_counts@);
        }
        while stack.len() > 0
            invariant
                self.wf(),
                parents == self.parents(),
                children == self.children(),
                root == tag_index,
                root < parents.len(),
                visited.finite(),
                visited.subset_of(set_int_range(0, parents.len() as int)),
                search_state(parents, root as int, ref_counts@, stack@, visited),
            decreases parents.len() - visited.len(),
        {
            let ghost before = stack@;
            let current_index = stack.pop().unwrap();
            let index_usize = current_index as usize;
            proof {
                assert(before =~= stack@.push(current_index));
                assert(before[stack@.len() as int] == current_index);
            }
            if index_usize < ref_counts.len() && ref_counts[index_usize] > 0 {
                proof {
                    assert(is_descendant(parents, root as int, current_index as int));
                }
                return true;
            }
            proof {
                lemma_search_step(
                    parents,
                    children,
                    root as int,
                    ref_counts@,
                    stack@,
                    current_index,
                    visited,
                );
                lemma_int_range(0, parents.len() as int);
                lemma_len_subset(
                    visited.insert(current_index as int),
                    set_int_range(0, parents.len() as int),
                );
            }
            let ghost rest = stack@;
            let below = &self.tag_children[index_usize];
            proof {
                assert(children[index_usize as int] == below@);
            }
            let mut j: usize = 0;
            while j < below.len()
                invariant
                    j <= below.len(),
                    stack@ == rest + below@.take(j as int),
                decreases below.len() - j,
            {
                stack.push(below[j]);
                assert(below@.take(j + 1) =~= below@.take(j as int).push(below@[j as int]));
                assert(stack@ =~= rest + below@.take(j + 1));
                j += 1;
            }
            proof {
                assert(below@.take(below.len() as int) =~= below@);
                visited = visited.insert(current_index as int);
            }
        }
        proof {
            assert forall|below: int| #[trigger]
                is_descendant(parents, tag_index as int, below) implies !is_active(
                ref_counts@,
                below,
            ) by {
                assert(visited.contains(below));
            }
        }
        false
    }
}

impl Default for GameplayTagManager {
    fn default() -> (manager: Self)
        ensures
            manager.wf(),
            manager.names() == no_name_entries(),
            manager.parents().len() == 0,
    {
        let manager = Self {
            tag_name_to_index: name_table_new(),
            tag_parent_index: Vec::new(),
            tag_children: Vec::new(),
            tag_inherited_bits: Vec::new(),
            next_tag_index: 0,
        };
        proof {
            assert(manager.children() =~= Seq::<Seq<u16>>::empty());
        }
        manager
    }
}

} // verus!
