//! A thread-safe hash map of strings, backed by a sharded lock-free map
//! from an outside crate. The contents are named as a mathematical map from
//! key characters to value characters, and every operation's contract is
//! stated over that name.

use vstd::prelude::*;

use dashmap::DashMap;

verus! {

#[verifier::external_type_specification]
#[verifier::external_body]
#[verifier::reject_recursive_types(K)]
#[verifier::reject_recursive_types(V)]
#[verifier::reject_recursive_types(S)]
pub struct ExDashMap<K, V, S>(DashMap<K, V, S>);

/// The entries held by the backing map, keyed by character sequences.
pub uninterp spec fn dashmap_entries(m: DashMap<String, String>) -> Map<Seq<char>, Seq<char>>;

/// The empty contents.
pub open spec fn empty_entries() -> Map<Seq<char>, Seq<char>> {
    Map::empty()
}

/// Relies on `dashmap::DashMap::new`: a new map is empty.
#[verifier::external_body]
fn dashmap_new() -> (r: DashMap<String, String>)
    ensures
        dashmap_entries(r) == empty_entries(),
{
    DashMap::new()
}

/// Relies on `dashmap::DashMap::insert`: maps the key to the value,
/// returning the value it replaced, if any.
#[verifier::external_body]
fn dashmap_insert(m: &mut DashMap<String, String>, key: String, value: String) -> (r: Option<
    String,
>)
    ensures
        dashmap_entries(*final(m)) == dashmap_entries(*old(m)).insert(key@, value@),
        match r {
            Some(prev) => dashmap_entries(*old(m)).dom().contains(key@) && prev@ == dashmap_entries(
                *old(m),
            )[key@],
            None => !dashmap_entries(*old(m)).dom().contains(key@),
        },
{
    m.insert(key, value)
}

/// Relies on `dashmap::DashMap::get`: the value mapped to the key, copied
/// out, if the key is present.
#[verifier::external_body]
fn dashmap_get(m: &DashMap<String, String>, key: &String) -> (r: Option<String>)
    ensures
        match r {
            Some(v) => dashmap_entries(*m).dom().contains(key@) && v@ == dashmap_entries(*m)[key@],
            None => !dashmap_entries(*m).dom().contains(key@),
        },
{
    m.get(key).map(|entry| entry.value().clone())
}

/// Relies on `dashmap::DashMap::remove`: takes the key's entry out, if one
/// is present.
#[verifier::external_body]
fn dashmap_remove(m: &mut DashMap<String, String>, key: &String) -> (r: Option<String>)
    ensures
        dashmap_entries(*final(m)) == dashmap_entries(*old(m)).remove(key@),
        match r {
            Some(v) => dashmap_entries(*old(m)).dom().contains(key@) && v@ == dashmap_entries(
                *old(m),
            )[key@],
            None => !dashmap_entries(*old(m)).dom().contains(key@),
        },
{
    m.remove(key).map(|(_, v)| v)
}

/// Relies on `dashmap::DashMap::contains_key`.
#[verifier::external_body]
fn dashmap_contains(m: &DashMap<String, String>, key: &String) -> (r: bool)
    ensures
        r == dashmap_entries(*m).dom().contains(key@),
{
    m.contains_key(key)
}

/// Relies on `dashmap::DashMap::len`: the number of entries.
#[verifier::external_body]
fn dashmap_len(m: &DashMap<String, String>) -> (r: usize)
    ensures
        dashmap_entries(*m).dom().finite() ==> r == dashmap_entries(*m).dom().len(),
{
    m.len()
}

/// Relies on `dashmap::DashMap::clear`: removes every entry.
#[verifier::external_body]
fn dashmap_clear(m: &mut DashMap<String, String>)
    ensures
        dashmap_entries(*final(m)) == empty_entries(),
{
    m.clear()
}

/// Relies on `dashmap::DashMap::iter`: visits every entry exactly once, in
/// an order that may differ between processes; the collected pairs carry
/// exactly the map's keys, without repetition, each with its mapped value.
#[verifier::external_body]
fn dashmap_items(m: &DashMap<String, String>) -> (r: Vec<(String, String)>)
    ensures
        dashmap_entries(*m).dom().finite() ==> {
            &&& item_keys_view(r@).to_set() == dashmap_entries(*m).dom()
            &&& item_keys_view(r@).no_duplicates()
            &&& forall|i: int|
                0 <= i < r@.len() ==> dashmap_entries(*m)[(#[trigger] r@[i]).0@] == r@[i].1@
        },
{
    m.iter().map(|entry| (entry.key().clone(), entry.value().clone())).collect()
}

/// The key views of a pair vector.
pub open spec fn item_keys_view(v: Seq<(String, String)>) -> Seq<Seq<char>> {
    v.map_values(|p: (String, String)| p.0@)
}

/// `v` is the value of some key of the contents.
pub open spec fn is_some_value(m: Map<Seq<char>, Seq<char>>, v: Seq<char>) -> bool {
    exists|k: Seq<char>| m.dom().contains(k) && m[k] == v
}

/// Insert the pairs into the contents, in order.
pub open spec fn insert_pairs(
    m: Map<Seq<char>, Seq<char>>,
    ps: Seq<(Seq<char>, Seq<char>)>,
) -> Map<Seq<char>, Seq<char>>
    decreases ps.len(),
{
    if ps.len() == 0 {
        m
    } else {
        insert_pairs(m.insert(ps.first().0, ps.first().1), ps.drop_first())
    }
}

/// Relies on dashmap's `Entry::or_insert` (through `DashMap::entry`): maps
/// the key to the value exactly when the key was absent, and hands back a
/// copy of the value the key holds afterwards.
#[verifier::external_body]
fn dashmap_get_or_insert(m: &mut DashMap<String, String>, key: String, value: String) -> (r:
    String)
    ensures
        dashmap_entries(*old(m)).dom().contains(key@) ==> dashmap_entries(*final(m))
            == dashmap_entries(*old(m)) && r@ == dashmap_entries(*old(m))[key@],
        !dashmap_entries(*old(m)).dom().contains(key@) ==> dashmap_entries(*final(m))
            == dashmap_entries(*old(m)).insert(key@, value@) && r@ == value@,
{
    m.entry(key).or_insert(value).value().clone()
}

/// The view of a vector of string pairs.
pub open spec fn pairs_view_cm(v: Seq<(String, String)>) -> Seq<(Seq<char>, Seq<char>)> {
    v.map_values(|p: (String, String)| (p.0@, p.1@))
}

/// A thread-safe string map with per-shard locking underneath: its contents
/// are the named entries of the backing map.
pub struct ConcurrentHashMap {
    pub inner: DashMap<String, String>,
}

impl ConcurrentHashMap {
    /// The map's contents.
    pub open spec fn entries(&self) -> Map<Seq<char>, Seq<char>> {
        dashmap_entries(self.inner)
    }

    /// The contents stay finite through every operation.
    pub open spec fn wf(&self) -> bool {
        self.entries().dom().finite()
    }

    /// An empty map.
    pub fn new() -> (r: ConcurrentHashMap)
        ensures
            r.wf(),
            r.entries() == Map::<Seq<char>, Seq<char>>::empty(),
    {
        ConcurrentHashMap { inner: dashmap_new() }
    }

    /// Map the key to the value, returning the value it replaced, if any.
    pub fn insert(&mut self, key: String, value: String) -> (r: Option<String>)
        requires
            old(self).wf(),
        ensures
            final(self).wf(),
            final(self).entries() == old(self).entries().insert(key@, value@),
            match r {
                Some(prev) => old(self).entries().dom().contains(key@) && prev@ == old(
                    self,
                ).entries()[key@],
                None => !old(self).entries().dom().contains(key@),
            },
    {
        dashmap_insert(&mut self.inner, key, value)
    }

    /// The value mapped to the key, copied out, if the key is present.
    pub fn get(&self, key: &String) -> (r: Option<String>)
        ensures
            match r {
                Some(v) => self.entries().dom().contains(key@) && v@ == self.entries()[key@],
                None => !self.entries().dom().contains(key@),
            },
    {
        dashmap_get(&self.inner, key)
    }

    /// Take the key's entry out, if one is present.
    pub fn remove(&mut self, key: &String) -> (r: Option<String>)
        requires
            old(self).wf(),
        ensures
            final(self).wf(),
            final(self).entries() == old(self).entries().remove(key@),
            match r {
                Some(v) => old(self).entries().dom().contains(key@) && v@ == old(
                    self,
                ).entries()[key@],
                None => !old(self).entries().dom().contains(key@),
            },
    {
        dashmap_remove(&mut self.inner, key)
    }

    /// Whether the key is present.
    pub fn contains_key(&self, key: &String) -> (r: bool)
        ensures
            r == self.entries().dom().contains(key@),
    {
        dashmap_contains(&self.inner, key)
    }

    /// How many entries the map holds.
    pub fn len(&self) -> (r: usize)
        requires
            self.wf(),
        ensures
            r == self.entries().dom().len(),
    {
        dashmap_len(&self.inner)
    }

    /// Whether the map holds no entries.
    pub fn is_empty(&self) -> (r: bool)
        requires
            self.wf(),
        ensures
            r == (self.entries().dom().len() == 0),
    {
        let n = dashmap_len(&self.inner);
        n == 0
    }

    /// Remove every entry.
    pub fn clear(&mut self)
        ensures
            final(self).wf(),
            final(self).entries() == Map::<Seq<char>, Seq<char>>::empty(),
    {
        dashmap_clear(&mut self.inner)
    }

    /// The key-value pairs, in an order that may differ between processes,
    /// every key exactly once with its mapped value.
    pub fn items(&self) -> (r: Vec<(String, String)>)
        requires
            self.wf(),
        ensures
            item_keys_view(r@).to_set() == self.entries().dom(),
            item_keys_view(r@).no_duplicates(),
            forall|i: int|
                0 <= i < r@.len() ==> self.entries()[(#[trigger] r@[i]).0@] == r@[i].1@,
    {
        dashmap_items(&self.inner)
    }

    /// The keys, in an order that may differ between processes, each exactly
    /// once.
    pub fn keys(&self) -> (r: Vec<String>)
        requires
            self.wf(),
        ensures
            r@.map_values(|s: String| s@).to_set() == self.entries().dom(),
            r@.map_values(|s: String| s@).no_duplicates(),
    {
        let items = self.items();
        let ghost item_keys = item_keys_view(items@);
        let mut out: Vec<String> = Vec::new();
        let mut i: usize = 0;
        let n = items.len();
        while i < n
            invariant
                i <= n,
                n == items@.len(),
                out@.len() == i,
                forall|q: int| 0 <= q < i ==> (#[trigger] out@[q])@ == items@[q].0@,
            decreases n - i,
        {
            out.push(items[i].0.clone());
            i = i + 1;
        }
        proof {
            assert(out@.map_values(|s: String| s@) =~= item_keys);
        }
        out
    }

    /// The values, in an order that may differ between processes, one for
    /// each key; each is the value of some key of the map.
    pub fn values(&self) -> (r: Vec<String>)
        requires
            self.wf(),
        ensures
            r@.len() == self.entries().dom().len(),
            forall|i: int| 0 <= i < r@.len() ==> is_some_value(self.entries(), (#[trigger] r@[i])@),
    {
        broadcast use vstd::seq_lib::group_seq_properties;

        let items = self.items();
        proof {
            let item_keys = item_keys_view(items@);
            item_keys.unique_seq_to_set();
            assert forall|q: int|
                0 <= q < items@.len() implies self.entries().dom().contains(
                (#[trigger] items@[q]).0@,
            ) by {
                assert(item_keys[q] == items@[q].0@);
                assert(item_keys.contains(item_keys[q]));
                assert(item_keys.to_set().contains(items@[q].0@));
            }
        }
        let mut out: Vec<String> = Vec::new();
        let mut i: usize = 0;
        let n = items.len();
        while i < n
            invariant
                i <= n,
                n == items@.len(),
                out@.len() == i,
                self.wf(),
                forall|q: int| 0 <= q < i ==> (#[trigger] out@[q])@ == items@[q].1@,
                forall|q: int|
                    0 <= q < n ==> self.entries().dom().contains(
                        (#[trigger] items@[q]).0@,
                    ) && self.entries()[items@[q].0@] == items@[q].1@,
            decreases n - i,
        {
            out.push(items[i].1.clone());
            i = i + 1;
        }
        proof {
            assert forall|q: int| 0 <= q < out@.len() implies is_some_value(
                self.entries(),
                (#[trigger] out@[q])@,
            ) by {
                assert(self.entries().dom().contains(items@[q].0@) && self.entries()[items@[q].0@]
                    == out@[q]@);
            }
        }
        out
    }

    /// Insert every pair of `other` into the map, in order: later pairs win
    /// on repeated keys.
    pub fn update(&mut self, other: Vec<(String, String)>)
        requires
            old(self).wf(),
        ensures
            final(self).wf(),
            final(self).entries() == insert_pairs(
                old(self).entries(),
                pairs_view_cm(other@),
            ),
    {
        let ghost all = pairs_view_cm(other@);
        let mut rest = other;
        let ghost mut done: int = 0;
        while rest.len() > 0
            invariant
                self.wf(),
                0 <= done,
                done + rest@.len() == all.len(),
                pairs_view_cm(rest@) =~= all.skip(done),
                insert_pairs(old(self).entries(), all) == insert_pairs(
                    self.entries(),
                    all.skip(done),
                ),
            decreases rest@.len(),
        {
            let ghost pre = rest@;
            let pair = rest.remove(0);
            proof {
                assert(pairs_view_cm(pre)[0] == (pre[0].0@, pre[0].1@));
                assert(all.skip(done).first() == (pair.0@, pair.1@));
                assert(pairs_view_cm(rest@) =~= pairs_view_cm(pre).drop_first());
                assert(pairs_view_cm(rest@) =~= all.skip(done + 1));
                assert(all.skip(done).drop_first() =~= all.skip(done + 1));
            }
            let _ = dashmap_insert(&mut self.inner, pair.0, pair.1);
            proof {
                done = done + 1;
            }
        }
        proof {
            assert(all.skip(done) =~= Seq::<(Seq<char>, Seq<char>)>::empty());
        }
    }

    /// The value the key holds after the call: the given value exactly when
    /// the key was absent, and the already-present value otherwise, read and
    /// written as one shard-level step.
    pub fn get_or_insert(&mut self, key: String, value: String) -> (r: String)
        requires
            old(self).wf(),
        ensures
            final(self).wf(),
            old(self).entries().dom().contains(key@) ==> final(self).entries() == old(
                self,
            ).entries() && r@ == old(self).entries()[key@],
            !old(self).entries().dom().contains(key@) ==> final(self).entries() == old(
                self,
            ).entries().insert(key@, value@) && r@ == value@,
    {
        dashmap_get_or_insert(&mut self.inner, key, value)
    }

    /// The value mapped to the key, or the given default when the key is
    /// absent; the map is left alone either way.
    pub fn get_or_default(&self, key: &String, default: String) -> (r: String)
        ensures
            self.entries().dom().contains(key@) ==> r@ == self.entries()[key@],
            !self.entries().dom().contains(key@) ==> r == default,
    {
        match dashmap_get(&self.inner, key) {
            Some(v) => v,
            None => default,
        }
    }

    /// The shard grouping the interface reports.
    pub fn shard_count(&self) -> (r: usize)
        ensures
            r == 16,
    {
        16
    }
}

} // verus!
