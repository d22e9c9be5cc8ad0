//! Hash sets and maps of `hashbrown` that the checker uses, each held in a
//! struct of this crate whose contents are named for the contracts.
//!
//! Every method below is trusted: its contract restates what `hashbrown`'s
//! documentation and source say the called method does. Strings are compared
//! and hashed by their characters, so set membership and map keys follow the
//! strings' views.

use vstd::prelude::*;

verus! {

/// A `hashbrown::HashSet<String>`.
#[verifier::external_body]
pub struct StringSet {
    inner: hashbrown::HashSet<String>,
}

/// The strings a `StringSet` holds.
pub uninterp spec fn string_set_items(set: StringSet) -> Set<Seq<char>>;

impl StringSet {
    /// `HashSet::new`: an empty set.
    #[verifier::external_body]
    pub(crate) fn new() -> (set: Self)
        ensures
            string_set_items(set) == Set::<Seq<char>>::empty(),
    {
        StringSet { inner: hashbrown::HashSet::new() }
    }

    /// `HashSet::insert`: adds the value; `true` when it was not present before.
    #[verifier::external_body]
    pub(crate) fn insert(&mut self, value: String) -> (added: bool)
        ensures
            string_set_items(*final(self)) == string_set_items(*old(self)).insert(value@),
            string_set_items(*final(self)).finite() == string_set_items(*old(self)).finite(),
            added == !string_set_items(*old(self)).contains(value@),
    {
        self.inner.insert(value)
    }

    /// `HashSet::contains`.
    #[verifier::external_body]
    pub(crate) fn contains(&self, value: &str) -> (found: bool)
        ensures
            found == string_set_items(*self).contains(value@),
    {
        self.inner.contains(value)
    }

    /// A set of the given strings.
    pub fn from_strings(items: &Vec<String>) -> (set: Self)
        ensures
            string_set_items(set) == crate::text::views(items@).to_set(),
    {
        let mut set = StringSet::new();
        let mut idx: usize = 0;
        proof {
            assert(crate::text::views(items@).take(0).to_set() =~= Set::empty());
        }
        while idx < items.len()
            invariant
                idx <= items.len(),
                string_set_items(set) == crate::text::views(items@).take(idx as int).to_set(),
            decreases items.len() - idx,
        {
            proof {
                let before = crate::text::views(items@).take(idx as int);
                assert(crate::text::views(items@).take(idx + 1) =~= before.push(items@[idx as int]@));
                before.lemma_push_to_set_commute(items@[idx as int]@);
            }
            set.insert(items[idx].clone());
            idx = idx + 1;
        }
        proof {
            assert(crate::text::views(items@).take(idx as int) =~= crate::text::views(items@));
        }
        set
    }

    /// `HashSet::len`: the number of held values.
    #[verifier::external_body]
    pub(crate) fn len(&self) -> (count: usize)
        ensures
            count == string_set_items(*self).len(),
    {
        self.inner.len()
    }
}

/// A `hashbrown::HashSet<(String, usize)>`.
#[verifier::external_body]
pub struct TourKeySet {
    inner: hashbrown::HashSet<(String, usize)>,
}

/// The pairs a `TourKeySet` holds.
pub uninterp spec fn tour_key_set_items(set: TourKeySet) -> Set<(Seq<char>, usize)>;

impl TourKeySet {
    /// `HashSet::new`: an empty set.
    #[verifier::external_body]
    pub(crate) fn new() -> (set: Self)
        ensures
            tour_key_set_items(set) == Set::<(Seq<char>, usize)>::empty(),
    {
        TourKeySet { inner: hashbrown::HashSet::new() }
    }

    /// `HashSet::insert`: adds the pair; `true` when it was not present before.
    #[verifier::external_body]
    pub(crate) fn insert(&mut self, key: String, index: usize) -> (added: bool)
        ensures
            tour_key_set_items(*final(self)) == tour_key_set_items(*old(self)).insert((key@, index)),
            added == !tour_key_set_items(*old(self)).contains((key@, index)),
    {
        self.inner.insert((key, index))
    }
}

/// A `hashbrown::HashMap<String, usize>`.
#[verifier::external_body]
pub struct IndexMap {
    inner: hashbrown::HashMap<String, usize>,
}

/// The entries an `IndexMap` holds.
pub uninterp spec fn index_map_entries(map: IndexMap) -> Map<Seq<char>, usize>;

impl IndexMap {
    /// `HashMap::new`: an empty map.
    #[verifier::external_body]
    pub(crate) fn new() -> (created: Self)
        ensures
            index_map_entries(created) .dom() == Set::<Seq<char>>::empty(),
    {
        IndexMap { inner: hashbrown::HashMap::new() }
    }

    /// `HashMap::insert`: sets the value under the key, replacing an earlier one.
    #[verifier::external_body]
    pub(crate) fn insert(&mut self, key: String, value: usize) -> (previous: Option<usize>)
        ensures
            index_map_entries(*final(self)) == index_map_entries(*old(self)).insert(key@, value),
            previous == (if index_map_entries(*old(self)).contains_key(key@) {
                Some(index_map_entries(*old(self))[key@])
            } else {
                None
            }),
    {
        self.inner.insert(key, value)
    }

    /// `HashMap::len`: the number of keys.
    #[verifier::external_body]
    pub(crate) fn len(&self) -> (count: usize)
        ensures
            count == index_map_entries(*self).dom().len(),
    {
        self.inner.len()
    }

    /// `HashMap::get`, copying the value out.
    #[verifier::external_body]
    pub(crate) fn get(&self, key: &str) -> (value: Option<usize>)
        ensures
            value == (if index_map_entries(*self).contains_key(key@) {
                Some(index_map_entries(*self)[key@])
            } else {
                None
            }),
    {
        self.inner.get(key).cloned()
    }
}

/// A `hashbrown::HashMap<String, hashbrown::HashSet<(String, String, usize)>>`.
#[verifier::external_body]
pub struct GroupUsageMap {
    inner: hashbrown::HashMap<String, hashbrown::HashSet<(String, String, usize)>>,
}

/// The entries a `GroupUsageMap` holds.
pub uninterp spec fn group_usage_entries(map: GroupUsageMap) -> Map<Seq<char>, Set<(Seq<char>, Seq<char>, usize)>>;

impl GroupUsageMap {
    /// `HashMap::new`: an empty map.
    #[verifier::external_body]
    pub(crate) fn new() -> (created: Self)
        ensures
            group_usage_entries(created) .dom() == Set::<Seq<char>>::empty(),
    {
        GroupUsageMap { inner: hashbrown::HashMap::new() }
    }

    /// `HashMap::entry(..).or_default()` then `HashSet::insert`: adds the usage to
    /// the set kept under the group, starting from an empty set.
    #[verifier::external_body]
    pub(crate) fn add(&mut self, group: String, usage: (String, String, usize)) -> (added: bool)
        ensures
            added == !(group_usage_entries(*old(self)).contains_key(group@) && group_usage_entries(
                *old(self),
            )[group@].contains((usage.0@, usage.1@, usage.2))),
            group_usage_entries(*final(self)) == group_usage_entries(*old(self)).insert(
                group@,
                if group_usage_entries(*old(self)).contains_key(group@) {
                    group_usage_entries(*old(self))[group@]
                } else {
                    Set::empty()
                }.insert((usage.0@, usage.1@, usage.2)),
            ),
    {
        self.inner.entry(group).or_default().insert(usage)
    }

    /// `HashMap::get` then `HashSet::len`: the number of usages kept under the
    /// group, `None` for an unknown group.
    #[verifier::external_body]
    pub(crate) fn usage_count(&self, group: &str) -> (count: Option<usize>)
        ensures
            match count {
                Some(c) => group_usage_entries(*self).contains_key(group@) && c == group_usage_entries(
                    *self,
                )[group@].len(),
                None => !group_usage_entries(*self).contains_key(group@),
            },
    {
        self.inner.get(group).map(|usages| usages.len())
    }
}

/// The entries of a `std::collections::HashMap<String, String>`.
pub uninterp spec fn string_map_entries(map: std::collections::HashMap<String, String>) -> Map<Seq<char>, Seq<char>>;

/// `HashMap::new`: an empty map.
#[verifier::external_body]
pub(crate) fn string_map_new() -> (created: std::collections::HashMap<String, String>)
    ensures
        string_map_entries(created).dom() == Set::<Seq<char>>::empty(),
{
    std::collections::HashMap::new()
}

/// `HashMap::insert`: sets the value under the key, replacing an earlier one.
#[verifier::external_body]
pub(crate) fn string_map_insert(map: &mut std::collections::HashMap<String, String>, key: String, value: String) -> (previous: Option<String>)
    ensures
        string_map_entries(*final(map)) == string_map_entries(*old(map)).insert(key@, value@),
        previous is Some == string_map_entries(*old(map)).contains_key(key@),
{
    map.insert(key, value)
}

} // verus!
