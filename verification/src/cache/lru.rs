//! A least-recently-used cache bounded by entry count and/or total bytes.
//!
//! Values are held behind `Arc`, so a hit hands out a cheap shared handle.
//! Each value's memory cost comes from [`Weight`]. The recency order is kept
//! as a list of keys, least recently used first; eviction drops from its
//! front until the cache fits its budgets again, but never drops the last
//! entry, so a single value larger than the byte budget is kept.

use std::collections::HashMap;
use std::hash::Hash;
use std::sync::Arc;
use vstd::prelude::*;
use vstd::laws_eq::obeys_concrete_eq;
use vstd::pervasive::strictly_cloned;
use vstd::std_specs::cmp::PartialEqSpec;
use vstd::std_specs::hash::obeys_key_model;

verus! {

broadcast use vstd::std_specs::hash::group_hash_axioms;

/// The approximate memory cost (bytes) of a cached value.
pub trait Weight {
    /// The cost that [`Weight::weight`] reports.
    spec fn cost(&self) -> nat;

    fn weight(&self) -> (r: usize)
        ensures
            r == self.cost(),
    ;
}

impl Weight for Vec<u8> {
    open spec fn cost(&self) -> nat {
        self@.len()
    }

    fn weight(&self) -> (r: usize) {
        self.len()
    }
}

impl Weight for String {
    open spec fn cost(&self) -> nat {
        (vstd::utf8::encode_utf8(self@).len() as usize) as nat
    }

    fn weight(&self) -> (r: usize) {
        self.as_str().len()
    }
}

/// What the cache needs of its key type: hashing, `==` and `clone` agree with
/// identity (vstd states this for the primitive integer types).
pub open spec fn key_model<K: Eq + Hash + Clone>() -> bool {
    &&& obeys_key_model::<K>()
    &&& obeys_concrete_eq::<K>()
    &&& forall|a: K, b: K| #[trigger] strictly_cloned(a, b) ==> a == b
}

/// `u64` keys meet what the cache needs of a key type.
pub proof fn lemma_u64_key_model()
    ensures
        key_model::<u64>(),
{
    broadcast use vstd::std_specs::hash::group_hash_axioms;
    broadcast use vstd::laws_eq::group_laws_eq;

    assert(obeys_key_model::<u64>());
    assert(obeys_concrete_eq::<u64>());
}

/// `s` with every occurrence of `k` taken out, order kept.
pub open spec fn without<K>(s: Seq<K>, k: K) -> Seq<K>
    decreases s.len(),
{
    if s.len() == 0 {
        s
    } else if s.last() == k {
        without(s.drop_last(), k)
    } else {
        without(s.drop_last(), k).push(s.last())
    }
}

/// Total cost of the values that `order` names in `m`.
pub open spec fn weight_sum<K, V: Weight>(order: Seq<K>, m: Map<K, V>) -> nat
    decreases order.len(),
{
    if order.len() == 0 {
        0
    } else {
        m[order[0]].cost() + weight_sum(order.drop_first(), m)
    }
}

/// Whether `len` entries costing `bytes` exceed either budget.
pub open spec fn over_budget(
    len: nat,
    bytes: nat,
    max_entries: Option<usize>,
    max_bytes: Option<usize>,
) -> bool {
    (max_entries matches Some(c) && len > c) || (max_bytes matches Some(b) && bytes > b)
}

/// Where the survivors of eviction start in `order`, scanning from index `i`:
/// entries are dropped from the front while the rest is over budget and more
/// than one entry remains.
pub open spec fn evict_start<K, V: Weight>(
    order: Seq<K>,
    m: Map<K, V>,
    max_entries: Option<usize>,
    max_bytes: Option<usize>,
    i: int,
) -> int
    decreases order.len() - i,
{
    if 0 <= i && i + 1 < order.len() && over_budget(
        (order.len() - i) as nat,
        weight_sum(order.subrange(i, order.len() as int), m),
        max_entries,
        max_bytes,
    ) {
        evict_start(order, m, max_entries, max_bytes, i + 1)
    } else {
        i
    }
}

/// The recency order that survives eviction.
pub open spec fn kept_order<K, V: Weight>(
    order: Seq<K>,
    m: Map<K, V>,
    max_entries: Option<usize>,
    max_bytes: Option<usize>,
) -> Seq<K> {
    order.subrange(evict_start(order, m, max_entries, max_bytes, 0), order.len() as int)
}

/// Recency order after `key` is stored or used: it becomes the most recent.
pub open spec fn touched<K>(order: Seq<K>, key: K) -> Seq<K> {
    without(order, key).push(key)
}

/// The recency order after storing `key` and evicting to fit.
pub open spec fn put_order<K, V: Weight>(
    order: Seq<K>,
    contents: Map<K, V>,
    key: K,
    value: V,
    max_entries: Option<usize>,
    max_bytes: Option<usize>,
) -> Seq<K> {
    kept_order(touched(order, key), contents.insert(key, value), max_entries, max_bytes)
}

/// The contents after storing `key` and evicting to fit.
pub open spec fn put_contents<K, V: Weight>(
    order: Seq<K>,
    contents: Map<K, V>,
    key: K,
    value: V,
    max_entries: Option<usize>,
    max_bytes: Option<usize>,
) -> Map<K, V> {
    contents.insert(key, value).restrict(
        put_order(order, contents, key, value, max_entries, max_bytes).to_set(),
    )
}

/// The bookkeeping that every operation keeps: the recency order lists each
/// held key once, and the byte count is the sum of the held values' costs.
pub open spec fn accounted<K, V: Weight>(order: Seq<K>, contents: Map<K, V>, bytes: nat) -> bool {
    &&& order.no_duplicates()
    &&& forall|k: K| #[trigger] contents.contains_key(k) <==> order.contains(k)
    &&& order.len() == contents.len()
    &&& contents.dom().finite()
    &&& bytes == weight_sum(order, contents)
}

/// What holds of every cache between operations: the bookkeeping is exact and
/// the budgets are met unless a single entry remains.
pub open spec fn consistent<K, V: Weight>(
    order: Seq<K>,
    contents: Map<K, V>,
    bytes: nat,
    max_entries: Option<usize>,
    max_bytes: Option<usize>,
) -> bool {
    &&& accounted(order, contents, bytes)
    &&& (order.len() <= 1 || !over_budget(order.len(), bytes, max_entries, max_bytes))
}

// ---------------------------------------------------------------------------
// Lemmas on the recency order and the byte sum.

proof fn lemma_without_absent<K>(s: Seq<K>, k: K)
    requires
        !s.contains(k),
    ensures
        without(s, k) == s,
    decreases s.len(),
{
    if s.len() > 0 {
        assert(!s.drop_last().contains(k)) by {
            if s.drop_last().contains(k) {
                let j = choose|j: int| 0 <= j < s.drop_last().len() && s.drop_last()[j] == k;
                assert(s[j] == k);
            }
        }
        lemma_without_absent(s.drop_last(), k);
        assert(s.drop_last().push(s.last()) =~= s);
    }
}

proof fn lemma_without_at<K>(s: Seq<K>, k: K, i: int)
    requires
        s.no_duplicates(),
        0 <= i < s.len(),
        s[i] == k,
    ensures
        without(s, k) == s.remove(i),
    decreases s.len(),
{
    let n = s.len() as int;
    if i == n - 1 {
        assert(!s.drop_last().contains(k)) by {
            if s.drop_last().contains(k) {
                let j = choose|j: int| 0 <= j < s.drop_last().len() && s.drop_last()[j] == k;
                assert(s[j] == s[n - 1]);
            }
        }
        lemma_without_absent(s.drop_last(), k);
        assert(s.remove(i) =~= s.drop_last());
    } else {
        assert(s.last() != k) by {
            assert(s[n - 1] != s[i]);
        }
        assert(s.drop_last().no_duplicates());
        lemma_without_at(s.drop_last(), k, i);
        assert(s.drop_last().remove(i).push(s.last()) =~= s.remove(i));
    }
}

proof fn lemma_weight_sum_push<K, V: Weight>(s: Seq<K>, m: Map<K, V>, k: K)
    ensures
        weight_sum(s.push(k), m) == weight_sum(s, m) + m[k].cost(),
    decreases s.len(),
{
    if s.len() > 0 {
        lemma_weight_sum_push(s.drop_first(), m, k);
        assert(s.push(k).drop_first() =~= s.drop_first().push(k));
        assert(s.push(k)[0] == s[0]);
    } else {
        assert(s.push(k).drop_first() =~= Seq::<K>::empty());
        assert(weight_sum(Seq::<K>::empty(), m) == 0);
        assert(s.push(k)[0] == k);
    }
}

proof fn lemma_weight_sum_remove<K, V: Weight>(s: Seq<K>, m: Map<K, V>, i: int)
    requires
        0 <= i < s.len(),
    ensures
        weight_sum(s, m) == weight_sum(s.remove(i), m) + m[s[i]].cost(),
    decreases s.len(),
{
    if i > 0 {
        lemma_weight_sum_remove(s.drop_first(), m, i - 1);
        assert(s.remove(i).drop_first() =~= s.drop_first().remove(i - 1));
    } else {
        assert(s.remove(0) =~= s.drop_first());
    }
}

proof fn lemma_weight_sum_frame<K, V: Weight>(s: Seq<K>, m1: Map<K, V>, m2: Map<K, V>)
    requires
        forall|j: int| 0 <= j < s.len() ==> m1[#[trigger] s[j]] == m2[s[j]],
    ensures
        weight_sum(s, m1) == weight_sum(s, m2),
    decreases s.len(),
{
    if s.len() > 0 {
        assert forall|j: int| 0 <= j < s.drop_first().len() implies m1[#[trigger] s.drop_first()[j]]
            == m2[s.drop_first()[j]] by {
            assert(s.drop_first()[j] == s[j + 1]);
        }
        lemma_weight_sum_frame(s.drop_first(), m1, m2);
    }
}

proof fn lemma_weight_sum_front<K, V: Weight>(s: Seq<K>, m: Map<K, V>, i: int)
    requires
        0 <= i < s.len(),
    ensures
        weight_sum(s.subrange(i, s.len() as int), m) == m[s[i]].cost() + weight_sum(
            s.subrange(i + 1, s.len() as int),
            m,
        ),
{
    assert(s.subrange(i, s.len() as int).drop_first() =~= s.subrange(i + 1, s.len() as int));
}

proof fn lemma_touched_accounted<K, V: Weight>(o: Seq<K>, c: Map<K, V>, b: nat, key: K, value: V)
    requires
        accounted(o, c, b),
    ensures
        accounted(
            touched(o, key),
            c.insert(key, value),
            (b - (if c.contains_key(key) {
                c[key].cost()
            } else {
                0
            }) + value.cost()) as nat,
        ),
{
    let c2 = c.insert(key, value);
    if c.contains_key(key) {
        assert(o.contains(key));
        let i = choose|i: int| 0 <= i < o.len() && o[i] == key;
        lemma_without_at(o, key, i);
        let o2 = touched(o, key);
        assert(o2 =~= o.remove(i).push(key));
        assert(o2.no_duplicates()) by {
            assert forall|a: int, b2: int| 0 <= a < b2 < o2.len() implies o2[a] != o2[b2] by {
                let a0 = if a < i { a } else { a + 1 };
                if b2 == o2.len() - 1 {
                    assert(o2[a] == o[a0]);
                } else {
                    let b0 = if b2 < i { b2 } else { b2 + 1 };
                    assert(o2[a] == o[a0] && o2[b2] == o[b0]);
                }
            }
        }
        assert forall|x: K| #[trigger] c2.contains_key(x) <==> o2.contains(x) by {
            if c2.contains_key(x) {
                assert(o.contains(x));
                let j = choose|j: int| 0 <= j < o.len() && o[j] == x;
                if j == i {
                    assert(o2[o2.len() - 1] == x);
                } else if j < i {
                    assert(o2[j] == x);
                } else {
                    assert(o2[j - 1] == x);
                }
            }
            if o2.contains(x) {
                let j = choose|j: int| 0 <= j < o2.len() && o2[j] == x;
                if j == o2.len() - 1 {
                    assert(x == key);
                } else if j < i {
                    assert(o[j] == x);
                } else {
                    assert(o[j + 1] == x);
                }
                assert(o.contains(x));
            }
        }
        assert(c2.dom() =~= c.dom());
        let r = o.remove(i);
        assert forall|j: int| 0 <= j < r.len() implies c2[#[trigger] r[j]] == c[r[j]] by {
            let j0 = if j < i { j } else { j + 1 };
            assert(r[j] == o[j0]);
            assert(o[j0] != o[i]);
        }
        lemma_weight_sum_frame(r, c2, c);
        lemma_weight_sum_remove(o, c, i);
        lemma_weight_sum_push(r, c2, key);
    } else {
        assert(!o.contains(key));
        lemma_without_absent(o, key);
        let o2 = touched(o, key);
        assert(o2 =~= o.push(key));
        assert(o2.no_duplicates()) by {
            assert forall|a: int, b2: int| 0 <= a < b2 < o2.len() implies o2[a] != o2[b2] by {
                if b2 == o2.len() - 1 {
                    assert(o2[a] == o[a]);
                    assert(o.contains(o[a]));
                } else {
                    assert(o2[a] == o[a] && o2[b2] == o[b2]);
                }
            }
        }
        assert forall|x: K| #[trigger] c2.contains_key(x) <==> o2.contains(x) by {
            if c2.contains_key(x) && x != key {
                assert(o.contains(x));
                let j = choose|j: int| 0 <= j < o.len() && o[j] == x;
                assert(o2[j] == x);
            }
            if c2.contains_key(x) && x == key {
                assert(o2[o2.len() - 1] == x);
            }
            if o2.contains(x) {
                let j = choose|j: int| 0 <= j < o2.len() && o2[j] == x;
                if j < o.len() {
                    assert(o[j] == x);
                    assert(o.contains(x));
                }
            }
        }
        assert(c2.dom() =~= c.dom().insert(key));
        assert forall|j: int| 0 <= j < o.len() implies c2[#[trigger] o[j]] == c[o[j]] by {
            assert(o.contains(o[j]));
        }
        lemma_weight_sum_frame(o, c2, c);
        lemma_weight_sum_push(o, c2, key);
    }
}

proof fn lemma_evict_start_bounds<K, V: Weight>(
    order: Seq<K>,
    m: Map<K, V>,
    me: Option<usize>,
    mb: Option<usize>,
    i: int,
)
    requires
        0 <= i < order.len(),
    ensures
        i <= evict_start(order, m, me, mb, i) < order.len(),
        ({
            let s = evict_start(order, m, me, mb, i);
            s + 1 == order.len() || !over_budget(
                (order.len() - s) as nat,
                weight_sum(order.subrange(s, order.len() as int), m),
                me,
                mb,
            )
        }),
    decreases order.len() - i,
{
    if i + 1 < order.len() && over_budget(
        (order.len() - i) as nat,
        weight_sum(order.subrange(i, order.len() as int), m),
        me,
        mb,
    ) {
        lemma_evict_start_bounds(order, m, me, mb, i + 1);
    }
}

// ---------------------------------------------------------------------------
// The cache.

/// Calls `Arc::clone`: a second handle to the same allocation, hence to the
/// same value.
#[verifier::external_body]
pub(crate) fn share<V>(a: &Arc<V>) -> (r: Arc<V>)
    ensures
        r == *a,
{
    Arc::clone(a)
}

/// A clone of a key, through the clone function as a value so that the
/// result is known to be one of its outcomes.
fn clone_key<K: Clone>(k: &K) -> (r: K)
    ensures
        strictly_cloned(*k, r),
{
    let f = K::clone;
    f(k)
}

spec fn arc_value<V>(a: Arc<V>) -> V {
    *a
}

struct Entry<V> {
    value: Arc<V>,
    weight: usize,
}

/// A least-recently-used cache bounded by entry count and/or total bytes.
pub struct LruCache<K, V> {
    map: HashMap<K, Entry<V>>,
    /// Held keys, least recently used first.
    order: Vec<K>,
    bytes: usize,
    max_entries: Option<usize>,
    max_bytes: Option<usize>,
}

impl<K: Eq + Hash + Clone, V: Weight> LruCache<K, V> {
    /// The held values by key.
    pub closed spec fn contents(&self) -> Map<K, V> {
        self.map@.map_values(|e: Entry<V>| *e.value)
    }

    /// The held keys, least recently used first.
    pub closed spec fn recency(&self) -> Seq<K> {
        self.order@
    }

    /// The byte count the cache reports.
    pub closed spec fn held_bytes(&self) -> nat {
        self.bytes as nat
    }

    /// The entry budget (`None` = unbounded).
    pub closed spec fn entry_cap(&self) -> Option<usize> {
        self.max_entries
    }

    /// The byte budget (`None` = unbounded).
    pub closed spec fn byte_cap(&self) -> Option<usize> {
        self.max_bytes
    }

    /// The bookkeeping without the budget clause (it may lapse mid-operation).
    spec fn bookkept(&self) -> bool {
        &&& accounted(self.order@, self.contents(), self.bytes as nat)
        &&& forall|k: K| #[trigger]
            self.map@.contains_key(k) ==> self.map@[k].weight == (*self.map@[k].value).cost()
    }

    /// The cache's invariant.
    pub closed spec fn wf(&self) -> bool {
        &&& consistent(
            self.order@,
            self.contents(),
            self.bytes as nat,
            self.max_entries,
            self.max_bytes,
        )
        &&& forall|k: K| #[trigger]
            self.map@.contains_key(k) ==> self.map@[k].weight == (*self.map@[k].value).cost()
    }

    /// What the invariant says in terms of the public view.
    pub proof fn lemma_consistent(&self)
        requires
            self.wf(),
        ensures
            consistent(
                self.recency(),
                self.contents(),
                self.held_bytes(),
                self.entry_cap(),
                self.byte_cap(),
            ),
    {
    }

    /// A cache bounded by `max_entries` and/or `max_bytes` (`None` = unbounded).
    pub fn new(max_entries: Option<usize>, max_bytes: Option<usize>) -> (r: Self)
        ensures
            r.wf(),
            r.contents() == Map::<K, V>::empty(),
            r.recency() == Seq::<K>::empty(),
            r.held_bytes() == 0,
            r.entry_cap() == max_entries,
            r.byte_cap() == max_bytes,
    {
        let r = LruCache { map: HashMap::new(), order: Vec::new(), bytes: 0, max_entries, max_bytes };
        assert(r.contents() =~= Map::<K, V>::empty());
        r
    }

    /// A cache bounded only by a byte budget.
    pub fn with_max_bytes(max_bytes: usize) -> (r: Self)
        ensures
            r.wf(),
            r.contents() == Map::<K, V>::empty(),
            r.recency() == Seq::<K>::empty(),
            r.held_bytes() == 0,
            r.entry_cap() == None::<usize>,
            r.byte_cap() == Some(max_bytes),
    {
        Self::new(None, Some(max_bytes))
    }

    /// Whether `key` is held.
    pub fn contains(&self, key: &K) -> (r: bool)
        requires
            key_model::<K>(),
        ensures
            r == self.contents().contains_key(*key),
    {
        self.map.contains_key(key)
    }

    /// Drop every entry.
    pub fn clear(&mut self)
        requires
            old(self).wf(),
        ensures
            final(self).wf(),
            final(self).contents() == Map::<K, V>::empty(),
            final(self).recency() == Seq::<K>::empty(),
            final(self).held_bytes() == 0,
            final(self).entry_cap() == old(self).entry_cap(),
            final(self).byte_cap() == old(self).byte_cap(),
    {
        self.map.clear();
        self.order.clear();
        self.bytes = 0;
        assert(self.contents() =~= Map::<K, V>::empty());
    }

    /// The number of entries held.
    pub fn len(&self) -> (r: usize)
        requires
            key_model::<K>(),
        ensures
            r == self.contents().len(),
    {
        assert(self.contents().dom() =~= self.map@.dom());
        self.map.len()
    }

    /// Whether no entry is held.
    pub fn is_empty(&self) -> (r: bool)
        ensures
            r == (self.contents().len() == 0),
    {
        assert(self.contents().dom() =~= self.map@.dom());
        self.map.is_empty()
    }

    /// Total bytes currently held.
    pub fn bytes(&self) -> (r: usize)
        ensures
            r == self.held_bytes(),
    {
        self.bytes
    }

    /// Position of a held key in the recency order.
    fn position(&self, key: &K) -> (i: usize)
        requires
            key_model::<K>(),
            self.wf(),
            self.contents().contains_key(*key),
        ensures
            i < self.order@.len(),
            self.order@[i as int] == *key,
    {
        proof {
            reveal(obeys_concrete_eq);
            assert(self.order@.contains(*key));
        }
        let mut i: usize = 0;
        while i < self.order.len()
            invariant
                key_model::<K>(),
                obeys_concrete_eq::<K>(),
                K::obeys_eq_spec(),
                forall|x: K, y: K| x.eq_spec(&y) <==> (x == y),
                self.order@.contains(*key),
                i <= self.order@.len(),
                forall|j: int| 0 <= j < i ==> self.order@[j] != *key,
            decreases self.order@.len() - i,
        {
            if self.order[i] == *key {
                return i;
            }
            i = i + 1;
        }
        proof {
            let j = choose|j: int| 0 <= j < self.order@.len() && self.order@[j] == *key;
            assert(self.order@[j] != *key);
        }
        0
    }

    /// Make the held `key` the most recently used.
    fn touch(&mut self, key: &K)
        requires
            key_model::<K>(),
            old(self).wf(),
            old(self).contents().contains_key(*key),
        ensures
            final(self).wf(),
            final(self).contents() == old(self).contents(),
            final(self).recency() == touched(old(self).recency(), *key),
            final(self).held_bytes() == old(self).held_bytes(),
            final(self).entry_cap() == old(self).entry_cap(),
            final(self).byte_cap() == old(self).byte_cap(),
    {
        let i = self.position(key);
        let ghost o = self.order@;
        let ghost c = self.contents();
        let k = self.order.remove(i);
        self.order.push(k);
        proof {
            lemma_without_at(o, *key, i as int);
            assert(self.order@ =~= touched(o, *key));
            lemma_touched_accounted(o, c, self.bytes as nat, *key, c[*key]);
            assert(c.insert(*key, c[*key]) =~= c);
        }
    }

    /// Fetch a value, marking it most-recently-used.
    pub fn get(&mut self, key: &K) -> (r: Option<Arc<V>>)
        requires
            key_model::<K>(),
            old(self).wf(),
        ensures
            final(self).wf(),
            final(self).contents() == old(self).contents(),
            final(self).held_bytes() == old(self).held_bytes(),
            final(self).entry_cap() == old(self).entry_cap(),
            final(self).byte_cap() == old(self).byte_cap(),
            match r {
                Some(v) => old(self).contents().contains_key(*key) && *v == old(self).contents()[*key]
                    && final(self).recency() == touched(old(self).recency(), *key),
                None => !old(self).contents().contains_key(*key) && final(self).recency()
                    == old(self).recency(),
            },
    {
        let found = match self.map.get(key) {
            Some(e) => Some(share(&e.value)),
            None => None,
        };
        match found {
            Some(v) => {
                self.touch(key);
                Some(v)
            },
            None => None,
        }
    }

    /// The cost of the value held under `key` (0 when none is), without
    /// touching the recency order.
    pub(crate) fn weight_of(&self, key: &K) -> (r: usize)
        requires
            key_model::<K>(),
            self.wf(),
        ensures
            r == (if self.contents().contains_key(*key) {
                self.contents()[*key].cost()
            } else {
                0
            }),
            r <= self.held_bytes(),
    {
        match self.map.get(key) {
            Some(e) => {
                proof {
                    assert(self.map@.contains_key(*key));
                    assert(self.contents().dom().contains(*key));
                    assert(self.contents().contains_key(*key));
                    assert(self.order@.contains(*key));
                    let i = choose|i: int| 0 <= i < self.order@.len() && self.order@[i] == *key;
                    lemma_weight_sum_remove(self.order@, self.contents(), i);
                }
                e.weight
            },
            None => 0,
        }
    }

    /// Whether the held entries exceed a budget.
    fn over_budget(&self) -> (r: bool)
        ensures
            r == over_budget(
                self.order@.len(),
                self.bytes as nat,
                self.max_entries,
                self.max_bytes,
            ),
    {
        let n = self.order.len();
        let over_count = match self.max_entries {
            Some(c) => n > c,
            None => false,
        };
        let over_bytes = match self.max_bytes {
            Some(b) => self.bytes > b,
            None => false,
        };
        over_count || over_bytes
    }

    /// Evict least-recently-used entries until within budget. A single value
    /// larger than the byte budget is kept (the last entry is never evicted).
    fn evict_to_fit(&mut self)
        requires
            key_model::<K>(),
            old(self).bookkept(),
            old(self).order@.len() >= 1,
        ensures
            final(self).wf(),
            final(self).recency() == kept_order(
                old(self).recency(),
                old(self).contents(),
                old(self).entry_cap(),
                old(self).byte_cap(),
            ),
            final(self).contents() == old(self).contents().restrict(final(self).recency().to_set()),
            final(self).entry_cap() == old(self).entry_cap(),
            final(self).byte_cap() == old(self).byte_cap(),
    {
        let ghost o = self.order@;
        let ghost c = self.contents();
        let ghost me = self.max_entries;
        let ghost mb = self.max_bytes;
        let ghost mut i: int = 0;
        proof {
            assert(o.subrange(0, o.len() as int) =~= o);
            assert(c.restrict(o.to_set()) =~= c) by {
                assert forall|x: K| c.contains_key(x) <==> #[trigger] o.to_set().contains(x) by {
                    assert(o.to_set().contains(x) <==> o.contains(x));
                }
            }
        }
        while self.over_budget() && self.order.len() > 1
            invariant
                key_model::<K>(),
                0 <= i < o.len(),
                self.order@ == o.subrange(i, o.len() as int),
                self.contents() == c.restrict(self.order@.to_set()),
                self.bookkept(),
                self.max_entries == me,
                self.max_bytes == mb,
                accounted(o, c, weight_sum(o, c)),
                evict_start(o, c, me, mb, 0) == evict_start(o, c, me, mb, i),
            decreases self.order@.len(),
        {
            let ghost cur = self.order@;
            let ghost cc = self.contents();
            proof {
                assert forall|j: int| 0 <= j < cur.len() implies cc[#[trigger] cur[j]] == c[cur[j]] by {
                    assert(cur.to_set().contains(cur[j]));
                }
                lemma_weight_sum_frame(cur, cc, c);
                assert(cur =~= o.subrange(i, o.len() as int));
            }
            let k = self.order.remove(0);
            let ghost mb4 = self.map@;
            let removed = self.map.remove(&k);
            proof {
                assert(self.map@ == mb4.remove(k));
            }
            match removed {
                Some(e) => {
                    proof {
                        lemma_weight_sum_front(o, c, i);
                        lemma_weight_sum_frame(cur.drop_first(), cc, c);
                        assert(cur.remove(0) =~= cur.drop_first());
                    }
                    self.bytes = self.bytes - e.weight;
                },
                None => {
                    proof {
                        assert(cur.contains(cur[0]));
                    }
                },
            }
            proof {
                i = i + 1;
                let nxt = self.order@;
                assert(nxt =~= o.subrange(i, o.len() as int));
                assert(nxt =~= cur.drop_first());
                assert(!nxt.contains(k)) by {
                    if nxt.contains(k) {
                        let j = choose|j: int| 0 <= j < nxt.len() && nxt[j] == k;
                        assert(cur[j + 1] == cur[0]);
                    }
                }
                assert(nxt.to_set() =~= cur.to_set().remove(k)) by {
                    assert forall|x: K| #[trigger] nxt.to_set().contains(x) <==> cur.to_set().remove(
                        k,
                    ).contains(x) by {
                        if nxt.contains(x) {
                            let j = choose|j: int| 0 <= j < nxt.len() && nxt[j] == x;
                            assert(cur[j + 1] == x);
                        }
                        if cur.contains(x) && x != k {
                            let j = choose|j: int| 0 <= j < cur.len() && cur[j] == x;
                            assert(nxt[j - 1] == x);
                        }
                    }
                }
                assert(self.contents() =~= cc.remove(k));
                assert(cc =~= c.restrict(cur.to_set()));
                assert(self.contents() =~= c.restrict(nxt.to_set()));
                assert(cc.dom().contains(k));
                cc.lemma_remove_key_len(k);
                assert(self.contents().dom() =~= cc.remove(k).dom());
                assert(nxt.no_duplicates());
                assert forall|x: K| #[trigger] self.contents().contains_key(x) <==> nxt.contains(
                    x,
                ) by {
                    assert(nxt.to_set().contains(x) <==> nxt.contains(x));
                }
                lemma_weight_sum_frame(nxt, self.contents(), c);
            }
        }
        proof {
            let fin = self.order@;
            assert forall|j: int| 0 <= j < fin.len() implies self.contents()[#[trigger] fin[j]]
                == c[fin[j]] by {
                assert(fin.to_set().contains(fin[j]));
            }
            lemma_weight_sum_frame(fin, self.contents(), c);
            assert(fin =~= o.subrange(i, o.len() as int));
        }
    }

    /// Insert an already-`Arc`-wrapped value (replacing any existing one) and
    /// evict to fit the budget.
    pub fn put_arc(&mut self, key: K, value: Arc<V>) -> (r: Arc<V>)
        requires
            key_model::<K>(),
            old(self).wf(),
            old(self).held_bytes() - (if old(self).contents().contains_key(key) {
                old(self).contents()[key].cost()
            } else {
                0
            }) + (*value).cost() <= usize::MAX,
        ensures
            final(self).wf(),
            r == value,
            final(self).recency() == put_order(
                old(self).recency(),
                old(self).contents(),
                key,
                *value,
                old(self).entry_cap(),
                old(self).byte_cap(),
            ),
            final(self).contents() == put_contents(
                old(self).recency(),
                old(self).contents(),
                key,
                *value,
                old(self).entry_cap(),
                old(self).byte_cap(),
            ),
            final(self).contents().contains_key(key),
            final(self).contents()[key] == *value,
            final(self).entry_cap() == old(self).entry_cap(),
            final(self).byte_cap() == old(self).byte_cap(),
    {
        let ghost o = self.order@;
        let ghost c = self.contents();
        let ghost v0: V = arc_value(value);
        let weight = value.weight();
        let held = self.map.contains_key(&key);
        if held {
            let i = self.position(&key);
            let k = self.order.remove(i);
            self.order.push(k);
            proof {
                lemma_without_at(o, key, i as int);
                assert(self.order@ =~= touched(o, key));
                lemma_weight_sum_remove(o, c, i as int);
            }
        } else {
            let k2 = clone_key(&key);
            self.order.push(k2);
            proof {
                assert(!o.contains(key));
                lemma_without_absent(o, key);
                assert(self.order@ =~= touched(o, key));
            }
        }
        let ghost m0 = self.map@;
        let previous = self.map.insert(key, Entry { value: share(&value), weight });
        match previous {
            Some(e) => {
                proof {
                    assert(m0.contains_key(key) && e == m0[key]);
                }
                self.bytes = self.bytes - e.weight;
            },
            None => {},
        }
        self.bytes = self.bytes + weight;
        proof {
            lemma_touched_accounted(o, c, weight_sum(o, c), key, v0);
            assert(self.contents() =~= c.insert(key, v0));
            assert forall|k: K| #[trigger]
                self.map@.contains_key(k) implies self.map@[k].weight == (*self.map@[k].value).cost() by {
                if k != key {
                    assert(m0.contains_key(k));
                }
            }
        }
        let ghost o1 = self.order@;
        let ghost c1 = self.contents();
        self.evict_to_fit();
        proof {
            let s = evict_start(o1, c1, self.max_entries, self.max_bytes, 0);
            lemma_evict_start_bounds(o1, c1, self.max_entries, self.max_bytes, 0);
            let fin = self.recency();
            assert(fin[fin.len() - 1] == key);
            assert(fin.to_set().contains(key));
        }
        value
    }

    /// Insert a value (replacing any existing one) and evict to fit the budget.
    pub fn put(&mut self, key: K, value: V) -> (r: Arc<V>)
        requires
            key_model::<K>(),
            old(self).wf(),
            old(self).held_bytes() - (if old(self).contents().contains_key(key) {
                old(self).contents()[key].cost()
            } else {
                0
            }) + value.cost() <= usize::MAX,
        ensures
            final(self).wf(),
            *r == value,
            final(self).recency() == put_order(
                old(self).recency(),
                old(self).contents(),
                key,
                value,
                old(self).entry_cap(),
                old(self).byte_cap(),
            ),
            final(self).contents() == put_contents(
                old(self).recency(),
                old(self).contents(),
                key,
                value,
                old(self).entry_cap(),
                old(self).byte_cap(),
            ),
            final(self).contents().contains_key(key),
            final(self).contents()[key] == value,
            final(self).entry_cap() == old(self).entry_cap(),
            final(self).byte_cap() == old(self).byte_cap(),
    {
        self.put_arc(key, Arc::new(value))
    }

    /// Remove and return a value.
    pub fn remove(&mut self, key: &K) -> (r: Option<Arc<V>>)
        requires
            key_model::<K>(),
            old(self).wf(),
        ensures
            final(self).wf(),
            final(self).entry_cap() == old(self).entry_cap(),
            final(self).byte_cap() == old(self).byte_cap(),
            match r {
                Some(v) => {
                    &&& old(self).contents().contains_key(*key)
                    &&& *v == old(self).contents()[*key]
                    &&& final(self).contents() == old(self).contents().remove(*key)
                    &&& final(self).recency() == without(old(self).recency(), *key)
                    &&& final(self).held_bytes() == old(self).held_bytes() - old(
                        self,
                    ).contents()[*key].cost()
                },
                None => {
                    &&& !old(self).contents().contains_key(*key)
                    &&& final(self).contents() == old(self).contents()
                    &&& final(self).recency() == old(self).recency()
                    &&& final(self).held_bytes() == old(self).held_bytes()
                },
            },
    {
        if !self.map.contains_key(key) {
            return None;
        }
        let ghost o = self.order@;
        let ghost c = self.contents();
        let i = self.position(key);
        self.order.remove(i);
        let removed = self.map.remove(key);
        match removed {
            Some(e) => {
                proof {
                    lemma_without_at(o, *key, i as int);
                    lemma_weight_sum_remove(o, c, i as int);
                    let r = o.remove(i as int);
                    assert forall|j: int| 0 <= j < r.len() implies c.remove(*key)[#[trigger] r[j]]
                        == c[r[j]] by {
                        let j0 = if j < i { j } else { j + 1 };
                        assert(r[j] == o[j0]);
                        assert(o[j0] != o[i as int]);
                    }
                    lemma_weight_sum_frame(r, c.remove(*key), c);
                }
                self.bytes = self.bytes - e.weight;
                proof {
                    let r = o.remove(i as int);
                    assert(self.contents() =~= c.remove(*key));
                    c.lemma_remove_key_len(*key);
                    assert(r.no_duplicates()) by {
                        assert forall|a: int, b: int| 0 <= a < b < r.len() implies r[a] != r[b] by {
                            let a0 = if a < i { a } else { a + 1 };
                            let b0 = if b < i { b } else { b + 1 };
                            assert(r[a] == o[a0] && r[b] == o[b0]);
                        }
                    }
                    assert forall|x: K| #[trigger] self.contents().contains_key(x) <==> r.contains(
                        x,
                    ) by {
                        if r.contains(x) {
                            let j = choose|j: int| 0 <= j < r.len() && r[j] == x;
                            let j0 = if j < i { j } else { j + 1 };
                            assert(o[j0] == x);
                            assert(o.contains(x));
                            assert(o[j0] != o[i as int]);
                        }
                        if self.contents().contains_key(x) {
                            assert(o.contains(x));
                            let j = choose|j: int| 0 <= j < o.len() && o[j] == x;
                            if j < i {
                                assert(r[j] == x);
                            } else {
                                assert(r[j - 1] == x);
                            }
                        }
                    }
                    if r.len() > 1 {
                        assert(r.len() < o.len());
                    }
                }
                Some(e.value)
            },
            None => {
                proof {
                    assert(false);
                }
                None
            },
        }
    }

    /// Return the cached value, or compute and insert it on a miss. On a
    /// hit `f` is dropped uncalled and nothing but the recency changes; on a
    /// miss its one call gives the value stored as by [`LruCache::put`].
    pub fn get_or_insert_with<F: FnOnce() -> V>(&mut self, key: K, f: F) -> (r: Arc<V>)
        requires
            key_model::<K>(),
            old(self).wf(),
            f.requires(()),
            forall|v: V|
                f.ensures((), v) ==> old(self).held_bytes() + v.cost() <= usize::MAX,
        ensures
            final(self).wf(),
            final(self).entry_cap() == old(self).entry_cap(),
            final(self).byte_cap() == old(self).byte_cap(),
            old(self).contents().contains_key(key) ==> {
                &&& *r == old(self).contents()[key]
                &&& final(self).contents() == old(self).contents()
                &&& final(self).held_bytes() == old(self).held_bytes()
                &&& final(self).recency() == touched(old(self).recency(), key)
            },
            !old(self).contents().contains_key(key) ==> {
                &&& f.ensures((), *r)
                &&& final(self).recency() == put_order(
                    old(self).recency(),
                    old(self).contents(),
                    key,
                    *r,
                    old(self).entry_cap(),
                    old(self).byte_cap(),
                )
                &&& final(self).contents() == put_contents(
                    old(self).recency(),
                    old(self).contents(),
                    key,
                    *r,
                    old(self).entry_cap(),
                    old(self).byte_cap(),
                )
            },
    {
        match self.get(&key) {
            Some(v) => v,
            None => {
                let value = f();
                self.put(key, value)
            },
        }
    }
}

// ---------------------------------------------------------------------------
// Laws.

/// Eviction drops only least-recently-used entries, and no more of them than
/// needed: every dropped entry was dropped while the rest was over budget, and
/// what survives fits the budgets or is a single entry.
pub proof fn law_eviction_is_minimal<K, V: Weight>(
    order: Seq<K>,
    contents: Map<K, V>,
    max_entries: Option<usize>,
    max_bytes: Option<usize>,
)
    requires
        order.len() >= 1,
    ensures
        ({
            let s = evict_start(order, contents, max_entries, max_bytes, 0);
            &&& 0 <= s < order.len()
            &&& kept_order(order, contents, max_entries, max_bytes) == order.subrange(
                s,
                order.len() as int,
            )
            &&& forall|j: int|
                0 <= j < s ==> over_budget(
                    (order.len() - j) as nat,
                    #[trigger] weight_sum(order.subrange(j, order.len() as int), contents),
                    max_entries,
                    max_bytes,
                )
            &&& (s + 1 == order.len() || !over_budget(
                (order.len() - s) as nat,
                weight_sum(order.subrange(s, order.len() as int), contents),
                max_entries,
                max_bytes,
            ))
        }),
{
    lemma_evict_start_bounds(order, contents, max_entries, max_bytes, 0);
    lemma_evict_dropped_over(order, contents, max_entries, max_bytes, 0);
}

proof fn lemma_evict_dropped_over<K, V: Weight>(
    order: Seq<K>,
    m: Map<K, V>,
    me: Option<usize>,
    mb: Option<usize>,
    i: int,
)
    requires
        0 <= i < order.len(),
    ensures
        forall|j: int|
            i <= j < evict_start(order, m, me, mb, i) ==> over_budget(
                (order.len() - j) as nat,
                #[trigger] weight_sum(order.subrange(j, order.len() as int), m),
                me,
                mb,
            ),
    decreases order.len() - i,
{
    if i + 1 < order.len() && over_budget(
        (order.len() - i) as nat,
        weight_sum(order.subrange(i, order.len() as int), m),
        me,
        mb,
    ) {
        lemma_evict_dropped_over(order, m, me, mb, i + 1);
    }
}

/// A value just stored is held afterwards, as the most recently used entry:
/// eviction never drops it.
pub proof fn law_put_then_get<K, V: Weight>(
    order: Seq<K>,
    contents: Map<K, V>,
    key: K,
    value: V,
    max_entries: Option<usize>,
    max_bytes: Option<usize>,
)
    ensures
        put_contents(order, contents, key, value, max_entries, max_bytes).contains_key(key),
        put_contents(order, contents, key, value, max_entries, max_bytes)[key] == value,
        put_order(order, contents, key, value, max_entries, max_bytes).last() == key,
{
    let o1 = touched(order, key);
    let c1 = contents.insert(key, value);
    lemma_evict_start_bounds(o1, c1, max_entries, max_bytes, 0);
    let fin = put_order(order, contents, key, value, max_entries, max_bytes);
    assert(fin[fin.len() - 1] == key);
    assert(fin.to_set().contains(key));
}

/// What `without` keeps was in the sequence.
proof fn lemma_without_subset<K>(s: Seq<K>, k: K, x: K)
    requires
        without(s, k).contains(x),
    ensures
        s.contains(x),
    decreases s.len(),
{
    if s.len() > 0 {
        let w = without(s.drop_last(), k);
        if s.last() == k {
            lemma_without_subset(s.drop_last(), k, x);
        } else {
            if w.contains(x) {
                lemma_without_subset(s.drop_last(), k, x);
            } else {
                assert(x == s.last()) by {
                    let j = choose|j: int| 0 <= j < w.push(s.last()).len() && w.push(s.last())[j] == x;
                    if j < w.len() {
                        assert(w[j] == x);
                    }
                }
            }
        }
        if s.drop_last().contains(x) {
            let j = choose|j: int| 0 <= j < s.drop_last().len() && s.drop_last()[j] == x;
            assert(s[j] == x);
        } else if x == s.last() {
            assert(s[s.len() - 1] == x);
        }
    }
}

/// A put keeps the key it stores, as the most recent entry with the new
/// value, and leaves the cache within both budgets, or holding that single
/// entry.
pub proof fn law_put_within_budget<K, V: Weight>(
    order: Seq<K>,
    contents: Map<K, V>,
    key: K,
    value: V,
    max_entries: Option<usize>,
    max_bytes: Option<usize>,
)
    requires
        forall|k: K| order.contains(k) ==> contents.contains_key(k),
    ensures
        ({
            let o = put_order(order, contents, key, value, max_entries, max_bytes);
            let c = put_contents(order, contents, key, value, max_entries, max_bytes);
            &&& c.contains_key(key) && c[key] == value
            &&& o.last() == key
            &&& o.len() == 1 || !over_budget(o.len(), weight_sum(o, c), max_entries, max_bytes)
        }),
{
    law_put_then_get(order, contents, key, value, max_entries, max_bytes);
    let o1 = touched(order, key);
    let c1 = contents.insert(key, value);
    assert(o1.len() >= 1);
    law_eviction_is_minimal(o1, c1, max_entries, max_bytes);
    let o = put_order(order, contents, key, value, max_entries, max_bytes);
    let c = put_contents(order, contents, key, value, max_entries, max_bytes);
    let st = evict_start(o1, c1, max_entries, max_bytes, 0);
    assert forall|j: int| 0 <= j < o.len() implies c1[#[trigger] o[j]] == c[o[j]] by {
        let x = o[j];
        assert(o1[st + j] == x);
        assert(c1.contains_key(x)) by {
            if x != key {
                let w = without(order, key);
                assert(o1 == w.push(key));
                assert(w[st + j] == x);
                assert(w.contains(x));
                lemma_without_subset(order, key, x);
            }
        }
        assert(o.to_set().contains(x)) by {
            assert(o.contains(x));
        }
    }
    lemma_weight_sum_frame(o, c1, c);
}

} // verus!
