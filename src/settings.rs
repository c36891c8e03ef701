use indexmap::IndexMap;
use vstd::prelude::*;

verus! {

/// `indexmap::IndexMap`, the insertion-ordered hash map that holds the
/// settings; opaque here, and read through `entries_of`.
#[verifier::external_type_specification]
#[verifier::external_body]
#[verifier::reject_recursive_types(K)]
#[verifier::reject_recursive_types(V)]
#[verifier::reject_recursive_types(S)]
pub struct ExIndexMap<K, V, S>(IndexMap<K, V, S>);

/// The ordered (key, value) pairs that a settings map holds.
pub type Entries = Seq<(Seq<char>, Seq<char>)>;

/// What an `IndexMap<String, String>` holds, in its iteration order.
pub uninterp spec fn entries_of(m: IndexMap<String, String>) -> Entries;

/// True when the pairs of `e` carry pairwise different keys.
pub open spec fn keys_unique(e: Entries) -> bool {
    forall|i: int, j: int| 0 <= i < j < e.len() ==> #[trigger] e[i].0 != #[trigger] e[j].0
}

/// True when some pair of `e` has the key `k`.
pub open spec fn has_key(e: Entries, k: Seq<char>) -> bool {
    exists|i: int| 0 <= i < e.len() && #[trigger] e[i].0 == k
}

/// The position of the pair with key `k`, where `has_key(e, k)`.
pub open spec fn key_index(e: Entries, k: Seq<char>) -> int {
    choose|i: int| 0 <= i < e.len() && #[trigger] e[i].0 == k
}

/// `e` after assigning `v` to `k`: an existing key keeps its place and takes the
/// new value; a new key goes last.
pub open spec fn insert_entry(e: Entries, k: Seq<char>, v: Seq<char>) -> Entries {
    if has_key(e, k) {
        e.update(key_index(e, k), (k, v))
    } else {
        e.push((k, v))
    }
}

/// `e` after inserting each pair of `add` in turn.
pub open spec fn insert_all(e: Entries, add: Entries) -> Entries
    decreases add.len(),
{
    if add.len() == 0 {
        e
    } else {
        let last = add.last();
        insert_entry(insert_all(e, add.drop_last()), last.0, last.1)
    }
}

/// Inserting keeps the keys pairwise different.
pub proof fn lemma_insert_keeps_unique(e: Entries, k: Seq<char>, v: Seq<char>)
    requires
        keys_unique(e),
    ensures
        keys_unique(insert_entry(e, k, v)),
{
    let r = insert_entry(e, k, v);
    if has_key(e, k) {
        let i = key_index(e, k);
        assert forall|a: int, b: int| 0 <= a < b < r.len() implies #[trigger] r[a].0 != #[trigger] r[b].0 by {
            assert(e[a].0 != e[b].0);
        }
    } else {
        assert forall|a: int, b: int| 0 <= a < b < r.len() implies #[trigger] r[a].0 != #[trigger] r[b].0 by {
            if b == e.len() {
                assert(e[a].0 == e[a].0);
            } else {
                assert(e[a].0 != e[b].0);
            }
        }
    }
}

/// Inserting many pairs keeps the keys pairwise different.
pub proof fn lemma_insert_all_keeps_unique(e: Entries, add: Entries)
    requires
        keys_unique(e),
    ensures
        keys_unique(insert_all(e, add)),
    decreases add.len(),
{
    if add.len() > 0 {
        lemma_insert_all_keeps_unique(e, add.drop_last());
        lemma_insert_keeps_unique(insert_all(e, add.drop_last()), add.last().0, add.last().1);
    }
}

/// The position of the first pair of `add` with key `k`.
pub open spec fn first_pos(add: Entries, k: Seq<char>) -> int
    decreases add.len(),
{
    if add.len() == 0 {
        0
    } else if has_key(add.drop_last(), k) {
        first_pos(add.drop_last(), k)
    } else {
        add.len() - 1
    }
}

/// The value of the last pair of `add` with key `k`.
pub open spec fn last_value(add: Entries, k: Seq<char>) -> Seq<char>
    decreases add.len(),
{
    if add.len() == 0 {
        Seq::empty()
    } else if add.last().0 == k {
        add.last().1
    } else {
        last_value(add.drop_last(), k)
    }
}

/// A present key has its first position within `add`.
pub proof fn lemma_first_pos_bounds(add: Entries, k: Seq<char>)
    requires
        has_key(add, k),
    ensures
        0 <= first_pos(add, k) < add.len(),
    decreases add.len(),
{
    let rest = add.drop_last();
    if has_key(rest, k) {
        lemma_first_pos_bounds(rest, k);
    }
}

/// The keys of `add` after the last pair are those before it, and its own.
pub proof fn lemma_has_key_last(add: Entries, x: Seq<char>)
    requires
        add.len() > 0,
    ensures
        has_key(add, x) <==> (has_key(add.drop_last(), x) || add.last().0 == x),
{
    let rest = add.drop_last();
    if has_key(add, x) {
        let i = choose|i: int| 0 <= i < add.len() && #[trigger] add[i].0 == x;
        if i < rest.len() {
            assert(rest[i] == add[i]);
        }
    }
    if has_key(rest, x) {
        let i = choose|i: int| 0 <= i < rest.len() && #[trigger] rest[i].0 == x;
        assert(add[i] == rest[i]);
    }
    if add.last().0 == x {
        assert(add[add.len() - 1].0 == x);
    }
}

/// Inserting `a` and then `b` is inserting `a + b`.
pub proof fn lemma_insert_all_concat(e: Entries, a: Entries, b: Entries)
    ensures
        insert_all(insert_all(e, a), b) == insert_all(e, a + b),
    decreases b.len(),
{
    if b.len() == 0 {
        assert(a + b == a);
    } else {
        assert((a + b).drop_last() == a + b.drop_last());
        assert((a + b).last() == b.last());
        lemma_insert_all_concat(e, a, b.drop_last());
    }
}

/// Relies on `IndexMap::new`: a new map holds no entries.
#[verifier::external_body]
fn new_map() -> (r: IndexMap<String, String>)
    ensures
        entries_of(r) == Seq::<(Seq<char>, Seq<char>)>::empty(),
{
    IndexMap::new()
}

/// Relies on `IndexMap::insert`: a present key keeps its place and takes the new
/// value, a new key is placed last.
#[verifier::external_body]
fn map_insert(m: &mut IndexMap<String, String>, k: String, v: String)
    requires
        keys_unique(entries_of(*old(m))),
    ensures
        entries_of(*final(m)) == insert_entry(entries_of(*old(m)), k@, v@),
{
    m.insert(k, v);
}

/// Relies on `IndexMap::extend`: the same as inserting each pair of `other`, in
/// the order of `other`.
#[verifier::external_body]
fn map_extend(m: &mut IndexMap<String, String>, other: IndexMap<String, String>)
    requires
        keys_unique(entries_of(*old(m))),
    ensures
        entries_of(*final(m)) == insert_all(entries_of(*old(m)), entries_of(other)),
{
    m.extend(other);
}

/// The settings read from a configuration file, by name, in the order in
/// which each name was first assigned.
#[derive(PartialEq, Eq, Debug)]
pub struct NixConfig {
    settings: IndexMap<String, String>,
}

impl Default for NixConfig {
    fn default() -> (r: Self)
        ensures
            r.entries() == Seq::<(Seq<char>, Seq<char>)>::empty(),
    {
        NixConfig::new()
    }
}

impl NixConfig {
    pub closed spec fn entries(&self) -> Entries {
        entries_of(self.settings)
    }

    /// The keys are pairwise different.
    pub open spec fn wf(&self) -> bool {
        keys_unique(self.entries())
    }

    /// An empty configuration.
    pub fn new() -> (r: Self)
        ensures
            r.entries() == Seq::<(Seq<char>, Seq<char>)>::empty(),
            r.wf(),
    {
        NixConfig { settings: new_map() }
    }

    /// The settings map.
    pub fn settings(&self) -> (r: &IndexMap<String, String>)
        ensures
            entries_of(*r) == self.entries(),
    {
        &self.settings
    }

    /// The settings map, to change in place.
    pub fn settings_mut(&mut self) -> (r: &mut IndexMap<String, String>)
        ensures
            entries_of(*r) == old(self).entries(),
            final(self).entries() == entries_of(*final(r)),
    {
        &mut self.settings
    }

    /// The settings map, taken out of the configuration.
    pub fn into_settings(self) -> (r: IndexMap<String, String>)
        ensures
            entries_of(r) == self.entries(),
    {
        self.settings
    }

    /// Assigns `value` to `key`: a key already present keeps its place.
    pub fn insert_setting(&mut self, key: String, value: String)
        requires
            old(self).wf(),
        ensures
            final(self).entries() == insert_entry(old(self).entries(), key@, value@),
            final(self).wf(),
    {
        map_insert(&mut self.settings, key, value);
        proof { lemma_insert_keeps_unique(entries_of(old(self).settings), key@, value@); }
    }

    /// Assigns each setting of `other` in turn, in the order of `other`.
    pub fn merge(&mut self, other: NixConfig)
        requires
            old(self).wf(),
        ensures
            final(self).entries() == insert_all(old(self).entries(), other.entries()),
            final(self).wf(),
    {
        let ghost add = other.entries();
        map_extend(&mut self.settings, other.settings);
        proof { lemma_insert_all_keeps_unique(entries_of(old(self).settings), add); }
    }
}

} // verus!
