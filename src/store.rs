use vstd::prelude::*;

verus! {

/// The number of entries a store built with `Store::new` can hold.
pub const CAPACITY: usize = 100_000;

/// The shape of a stored value, as plain mathematical values.
pub enum ValModel {
    Str(Seq<char>),
    Hash(Seq<(Seq<char>, Seq<char>)>),
    Members(Seq<Seq<char>>),
    List(Seq<Seq<char>>),
}

/// A set holds each member once, and a hash each field once.
pub open spec fn val_ok(v: ValModel) -> bool {
    match v {
        ValModel::Members(m) => m.no_duplicates(),
        ValModel::Hash(h) => h.map_values(|p: (Seq<char>, Seq<char>)| p.0).no_duplicates(),
        _ => true,
    }
}

/// A typed value held under a key.
#[derive(Clone)]
pub enum StoreVal {
    Str(String),
    /// Field/value pairs, fields unique.
    Hash(Vec<(String, String)>),
    /// Members, no duplicates.
    Members(Vec<String>),
    List(Vec<String>),
}

pub open spec fn pairs_view(v: Seq<(String, String)>) -> Seq<(Seq<char>, Seq<char>)> {
    v.map_values(|p: (String, String)| (p.0@, p.1@))
}

pub open spec fn strings_view(v: Seq<String>) -> Seq<Seq<char>> {
    v.map_values(|s: String| s@)
}

impl View for StoreVal {
    type V = ValModel;

    open spec fn view(&self) -> ValModel {
        match self {
            StoreVal::Str(s) => ValModel::Str(s@),
            StoreVal::Hash(h) => ValModel::Hash(pairs_view(h@)),
            StoreVal::Members(s) => ValModel::Members(strings_view(s@)),
            StoreVal::List(l) => ValModel::List(strings_view(l@)),
        }
    }
}

impl StoreVal {
    pub fn get_str(&self) -> (r: Option<&String>)
        ensures
            match self {
                StoreVal::Str(s) => r == Some(s),
                _ => r is None,
            },
    {
        if let StoreVal::Str(s) = self {
            Some(s)
        } else {
            None
        }
    }

    pub fn get_hash(&self) -> (r: Option<&Vec<(String, String)>>)
        ensures
            match self {
                StoreVal::Hash(h) => r == Some(h),
                _ => r is None,
            },
    {
        if let StoreVal::Hash(h) = self {
            Some(h)
        } else {
            None
        }
    }

    pub fn get_set(&self) -> (r: Option<&Vec<String>>)
        ensures
            match self {
                StoreVal::Members(s) => r == Some(s),
                _ => r is None,
            },
    {
        if let StoreVal::Members(s) = self {
            Some(s)
        } else {
            None
        }
    }

    pub fn get_list(&self) -> (r: Option<&Vec<String>>)
        ensures
            match self {
                StoreVal::List(l) => r == Some(l),
                _ => r is None,
            },
    {
        if let StoreVal::List(l) = self {
            Some(l)
        } else {
            None
        }
    }
}

/// A stored value and its absolute expiry time in seconds, if any.
#[derive(Clone)]
pub struct Entry {
    pub val: StoreVal,
    pub expiry: Option<u64>,
}

impl View for Entry {
    type V = (ValModel, Option<u64>);

    open spec fn view(&self) -> (ValModel, Option<u64>) {
        (self.val@, self.expiry)
    }
}

/// An entry whose expiry time has been reached is logically absent.
pub open spec fn is_expired(e: (ValModel, Option<u64>), now: u64) -> bool {
    e.1 is Some && e.1->0 <= now
}

/// The recency order with `k` taken out.
pub open spec fn without(s: Seq<Seq<char>>, k: Seq<char>) -> Seq<Seq<char>> {
    if s.contains(k) {
        s.remove(s.index_of(k))
    } else {
        s
    }
}

/// A least-recently-used table from string keys to entries.
#[verifier::external_body]
pub struct Lru {
    inner: lru::LruCache<String, Entry>,
}

/// What the table holds, by key.
pub uninterp spec fn lru_entries(c: Lru) -> Map<Seq<char>, (ValModel, Option<u64>)>;

/// The keys of the table, least recently used first.
pub uninterp spec fn lru_order(c: Lru) -> Seq<Seq<char>>;

/// The bound the table was made with.
pub uninterp spec fn lru_cap(c: Lru) -> nat;

/// Relies on lru::LruCache::new: an empty table bounded by `cap`.
#[verifier::external_body]
fn lru_new(cap: usize) -> (r: Lru)
    requires
        cap > 0,
    ensures
        lru_entries(r).dom().len() == 0,
        lru_entries(r).dom().finite(),
        lru_order(r).len() == 0,
        lru_cap(r) == cap,
{
    Lru { inner: lru::LruCache::new(std::num::NonZeroUsize::new(cap).unwrap()) }
}

/// Relies on lru::LruCache::put: an existing key gets the new value and becomes the
/// most recent; a new key is added as the most recent, after the least recent entry
/// was dropped if the table was full.
#[verifier::external_body]
fn lru_put(c: &mut Lru, k: String, v: Entry)
    ensures
        lru_cap(*final(c)) == lru_cap(*old(c)),
        lru_order(*old(c)).contains(k@) ==> {
            &&& lru_entries(*final(c)) == lru_entries(*old(c)).insert(k@, v@)
            &&& lru_order(*final(c)) == without(lru_order(*old(c)), k@).push(k@)
        },
        !lru_order(*old(c)).contains(k@) && lru_order(*old(c)).len() == lru_cap(*old(c)) ==> {
            &&& lru_entries(*final(c)) == lru_entries(*old(c)).remove(
                lru_order(*old(c))[0],
            ).insert(k@, v@)
            &&& lru_order(*final(c)) == lru_order(*old(c)).drop_first().push(k@)
        },
        !lru_order(*old(c)).contains(k@) && lru_order(*old(c)).len() != lru_cap(*old(c)) ==> {
            &&& lru_entries(*final(c)) == lru_entries(*old(c)).insert(k@, v@)
            &&& lru_order(*final(c)) == lru_order(*old(c)).push(k@)
        },
{
    c.inner.put(k, v);
}

/// Relies on lru::LruCache::get: a present key becomes the most recent and its
/// entry is handed out (cloned); otherwise nothing changes.
#[verifier::external_body]
fn lru_get(c: &mut Lru, k: &str) -> (r: Option<Entry>)
    ensures
        lru_cap(*final(c)) == lru_cap(*old(c)),
        lru_entries(*final(c)) == lru_entries(*old(c)),
        lru_order(*old(c)).contains(k@) ==> {
            &&& r is Some
            &&& r->0@ == lru_entries(*old(c))[k@]
            &&& lru_order(*final(c)) == without(lru_order(*old(c)), k@).push(k@)
        },
        !lru_order(*old(c)).contains(k@) ==> r is None && lru_order(*final(c)) == lru_order(
            *old(c),
        ),
{
    c.inner.get(k).cloned()
}

/// Relies on lru::LruCache::pop: the key's entry, if any, is removed.
#[verifier::external_body]
fn lru_pop(c: &mut Lru, k: &str)
    ensures
        lru_cap(*final(c)) == lru_cap(*old(c)),
        lru_entries(*final(c)) == lru_entries(*old(c)).remove(k@),
        lru_order(*final(c)) == without(lru_order(*old(c)), k@),
{
    c.inner.pop(k);
}

/// Relies on lru::LruCache::iter: every key with its expiry, most recent first.
#[verifier::external_body]
fn lru_snapshot(c: &Lru) -> (r: Vec<(String, Option<u64>)>)
    ensures
        r@.len() == lru_order(*c).len(),
        forall|i: int|
            0 <= i < r@.len() ==> {
                let k = lru_order(*c)[lru_order(*c).len() - 1 - i];
                &&& #[trigger] r@[i].0@ == k
                &&& r@[i].1 == lru_entries(*c)[k].1
            },
{
    c.inner.iter().map(|(k, e)| (k.clone(), e.expiry)).collect()
}


/// The cache engine: a bounded table of entries with least-recently-used eviction
/// and expiry. The caller supplies the current time in seconds.
pub struct Store {
    cache: Lru,
}

impl Store {
    /// Entries by key.
    pub closed spec fn entries(&self) -> Map<Seq<char>, (ValModel, Option<u64>)> {
        lru_entries(self.cache)
    }

    /// Keys, least recently used first.
    pub closed spec fn order(&self) -> Seq<Seq<char>> {
        lru_order(self.cache)
    }

    pub closed spec fn capacity(&self) -> nat {
        lru_cap(self.cache)
    }

    /// The order holds each resident key once, no more keys than the capacity, and
    /// every stored value is well formed.
    pub open spec fn wf(&self) -> bool {
        &&& self.order().no_duplicates()
        &&& forall|k: Seq<char>|
            #![trigger self.entries().dom().contains(k)]
            #![trigger self.order().contains(k)]
            self.entries().dom().contains(k) <==> self.order().contains(k)
        &&& self.order().len() <= self.capacity()
        &&& self.capacity() > 0
        &&& forall|k: Seq<char>| #[trigger]
            self.entries().dom().contains(k) ==> val_ok(self.entries()[k].0)
    }

    /// A store holding at most `CAPACITY` entries.
    pub fn new() -> (r: Store)
        ensures
            r.wf(),
            r.capacity() == CAPACITY,
            r.order().len() == 0,
            r.entries().dom().len() == 0,
    {
        Store::with_capacity(CAPACITY)
    }

    /// A store holding at most `cap` entries.
    pub fn with_capacity(cap: usize) -> (r: Store)
        requires
            cap > 0,
        ensures
            r.wf(),
            r.capacity() == cap,
            r.order().len() == 0,
            r.entries().dom().len() == 0,
    {
        let r = Store { cache: lru_new(cap) };
        assert forall|k: Seq<char>| #[trigger] r.entries().contains_key(k) <==> r.order().contains(k) by {
            if r.entries().contains_key(k) {
                assert(r.entries().dom().contains(k));
                assert(r.entries().dom().remove(k).len() < 0);
            }
        }
        r
    }

    /// Looks `key` up: a hit on a live entry makes it the most recent; an expired
    /// entry is removed and reads as absent.
    pub fn get(&mut self, key: &str, now: u64) -> (r: Option<StoreVal>)
        requires
            old(self).wf(),
        ensures
            final(self).wf(),
            final(self).capacity() == old(self).capacity(),
            (final(self).entries(), final(self).order()) == lookup_step(
                old(self).entries(),
                old(self).order(),
                key@,
                now,
            ),
            r.is_some() == live(old(self).entries(), key@, now).is_some(),
            r.is_some() ==> live(old(self).entries(), key@, now) == Some(r->0@),
            forall|k: Seq<char>| #[trigger]
                live(final(self).entries(), k, now) == live(old(self).entries(), k, now),
    {
        match self.lookup(key, now) {
            Some(e) => Some(e.val),
            None => None,
        }
    }

    /// Like `get`, handing out the whole entry, expiry included.
    pub fn lookup(&mut self, key: &str, now: u64) -> (r: Option<Entry>)
        requires
            old(self).wf(),
        ensures
            final(self).wf(),
            final(self).capacity() == old(self).capacity(),
            !old(self).entries().contains_key(key@) ==> r is None && final(self).entries()
                == old(self).entries() && final(self).order() == old(self).order(),
            old(self).entries().contains_key(key@) && is_expired(old(self).entries()[key@], now)
                ==> r is None && final(self).entries() == old(self).entries().remove(key@)
                && final(self).order() == without(old(self).order(), key@),
            old(self).entries().contains_key(key@) && !is_expired(old(self).entries()[key@], now)
                ==> r is Some && r->0@ == old(self).entries()[key@] && final(self).entries()
                == old(self).entries() && final(self).order() == without(old(self).order(), key@).push(key@),
            (final(self).entries(), final(self).order()) == lookup_step(
                old(self).entries(),
                old(self).order(),
                key@,
                now,
            ),
            r.is_some() == live(old(self).entries(), key@, now).is_some(),
            r.is_some() ==> live(old(self).entries(), key@, now) == Some(r->0@.0),
            forall|k: Seq<char>| #[trigger]
                live(final(self).entries(), k, now) == live(old(self).entries(), k, now),
    {
        proof {
            lemma_without(self.order(), key@);
        }
        match lru_get(&mut self.cache, key) {
            Some(e) => {
                proof {
                    lemma_push(without(old(self).order(), key@), key@);
                }
                match e.expiry {
                    Some(t) => {
                        if t <= now {
                            lru_pop(&mut self.cache, key);
                            proof {
                                lemma_without(without(old(self).order(), key@).push(key@), key@);
                                let a = without(old(self).order(), key@);
                                let b = without(a.push(key@), key@);
                                assert(b =~= a) by {
                                    assert(a.push(key@).index_of(key@) == a.len()) by {
                                        let i = a.push(key@).index_of(key@);
                                        if i != a.len() {
                                            assert(a.contains(key@));
                                        }
                                    }
                                }
                            }
                            return None;
                        }
                    },
                    None => {},
                }
                Some(e)
            },
            None => None,
        }
    }

    /// Stores `val` under `key`, expiring `ttl` seconds after `now` when given (the
    /// expiry saturates at the largest time), with no expiry otherwise. The key
    /// becomes the most recent; a new key in a full store evicts the least recent.
    pub fn set(&mut self, key: String, val: StoreVal, ttl: Option<u64>, now: u64)
        requires
            old(self).wf(),
            val_ok(val@),
        ensures
            final(self).wf(),
            final(self).capacity() == old(self).capacity(),
            (final(self).entries(), final(self).order()) == put_step(
                old(self).entries(),
                old(self).order(),
                old(self).capacity(),
                key@,
                (val@, expiry_of(ttl, now)),
            ),
    {
        let expiry = match ttl {
            Some(t) => Some(now.saturating_add(t)),
            None => None,
        };
        self.put(key, Entry { val, expiry });
    }

    /// Stores `e` under `key`, with its absolute expiry as it is. The key becomes
    /// the most recent; a new key in a full store evicts the least recent.
    pub fn put(&mut self, key: String, e: Entry)
        requires
            old(self).wf(),
            val_ok(e.val@),
        ensures
            final(self).wf(),
            final(self).capacity() == old(self).capacity(),
            (final(self).entries(), final(self).order()) == put_step(
                old(self).entries(),
                old(self).order(),
                old(self).capacity(),
                key@,
                e@,
            ),
    {
        let ghost k = key@;
        let ghost o = old(self).order();
        lru_put(&mut self.cache, key, e);
        proof {
            lemma_without(o, k);
            if o.contains(k) {
                lemma_push(without(o, k), k);
            } else if o.len() == old(self).capacity() {
                lemma_drop_first(o);
                lemma_push(o.drop_first(), k);
            } else {
                lemma_push(o, k);
            }
        }
    }

    /// Removes `key`, if present.
    pub fn delete(&mut self, key: &str)
        requires
            old(self).wf(),
        ensures
            final(self).wf(),
            final(self).capacity() == old(self).capacity(),
            final(self).entries() == old(self).entries().remove(key@),
            final(self).order() == without(old(self).order(), key@),
    {
        lru_pop(&mut self.cache, key);
        proof {
            lemma_without(old(self).order(), key@);
        }
    }

    /// Every resident key, expired or not, most recent first.
    pub fn keys(&self) -> (r: Vec<String>)
        requires
            self.wf(),
        ensures
            r@.len() == self.order().len(),
            forall|i: int|
                0 <= i < r@.len() ==> #[trigger] r@[i]@ == self.order()[self.order().len() - 1 - i],
    {
        let snap = lru_snapshot(&self.cache);
        let mut r: Vec<String> = Vec::new();
        let mut i: usize = 0;
        while i < snap.len()
            invariant
                i <= snap@.len(),
                snap@.len() == self.order().len(),
                r@.len() == i,
                forall|j: int| 0 <= j < snap@.len() ==> #[trigger] snap@[j].0@ == self.order()[self.order().len() - 1 - j],
                forall|j: int| 0 <= j < i ==> #[trigger] r@[j]@ == snap@[j].0@,
            decreases snap@.len() - i,
        {
            r.push(snap[i].0.clone());
            i = i + 1;
        }
        r
    }

    /// Removes every entry whose expiry time is at or before `now`.
    pub fn clean_expired(&mut self, now: u64)
        requires
            old(self).wf(),
        ensures
            final(self).wf(),
            final(self).capacity() == old(self).capacity(),
            forall|k: Seq<char>| #[trigger]
                final(self).entries().contains_key(k) <==> (old(self).entries().contains_key(k)
                    && !is_expired(old(self).entries()[k], now)),
            forall|k: Seq<char>| #[trigger]
                final(self).entries().contains_key(k) ==> final(self).entries()[k] == old(
                    self,
                ).entries()[k],
    {
        let snap = lru_snapshot(&self.cache);
        let ghost o = old(self).order();
        let ghost n = o.len();
        let mut i: usize = 0;
        while i < snap.len()
            invariant
                self.wf(),
                i <= snap@.len(),
                snap@.len() == n,
                o == old(self).order(),
                self.capacity() == old(self).capacity(),
                forall|j: int|
                    0 <= j < n ==> {
                        let k = o[n - 1 - j];
                        &&& #[trigger] snap@[j].0@ == k
                        &&& snap@[j].1 == old(self).entries()[k].1
                    },
                forall|k: Seq<char>| #[trigger]
                    self.entries().contains_key(k) <==> (old(self).entries().contains_key(k)
                        && !(is_expired(old(self).entries()[k], now) && exists|j: int|
                        0 <= j < i && snap@[j].0@ == k)),
                forall|k: Seq<char>| #[trigger]
                    self.entries().contains_key(k) ==> self.entries()[k] == old(self).entries()[k],
            decreases snap@.len() - i,
        {
            let expired = match snap[i].1 {
                Some(t) => t <= now,
                None => false,
            };
            if expired {
                self.delete(snap[i].0.as_str());
            }
            i = i + 1;
        }
        assert forall|k: Seq<char>| #[trigger] old(self).entries().contains_key(k) implies exists|j: int|
            0 <= j < n && snap@[j].0@ == k by {
            assert(o.contains(k));
            let m = choose|m: int| 0 <= m < n && o[m] == k;
            assert(snap@[n - 1 - m].0@ == k);
        }
    }
}

/// The table and recency order after storing `e` under `k`: an existing key takes
/// the new entry and becomes the most recent; a new key becomes the most recent,
/// and when the table is full the least recent key is evicted first.
pub open spec fn put_step(
    entries: Map<Seq<char>, (ValModel, Option<u64>)>,
    order: Seq<Seq<char>>,
    cap: nat,
    k: Seq<char>,
    e: (ValModel, Option<u64>),
) -> (Map<Seq<char>, (ValModel, Option<u64>)>, Seq<Seq<char>>) {
    if entries.contains_key(k) {
        (entries.insert(k, e), without(order, k).push(k))
    } else if order.len() == cap {
        (entries.remove(order[0]).insert(k, e), order.drop_first().push(k))
    } else {
        (entries.insert(k, e), order.push(k))
    }
}

/// The table and recency order after a lookup of `k` at time `now`: a live key
/// becomes the most recent, an expired one is removed, an absent one changes nothing.
pub open spec fn lookup_step(
    entries: Map<Seq<char>, (ValModel, Option<u64>)>,
    order: Seq<Seq<char>>,
    k: Seq<char>,
    now: u64,
) -> (Map<Seq<char>, (ValModel, Option<u64>)>, Seq<Seq<char>>) {
    if !entries.contains_key(k) {
        (entries, order)
    } else if is_expired(entries[k], now) {
        (entries.remove(k), without(order, k))
    } else {
        (entries, without(order, k).push(k))
    }
}

/// The value a lookup of `k` at time `now` sees: present and not expired.
pub open spec fn live(
    entries: Map<Seq<char>, (ValModel, Option<u64>)>,
    k: Seq<char>,
    now: u64,
) -> Option<ValModel> {
    if entries.contains_key(k) && !is_expired(entries[k], now) {
        Some(entries[k].0)
    } else {
        None
    }
}

/// The absolute expiry time for a time-to-live given at `now`.
pub open spec fn expiry_of(ttl: Option<u64>, now: u64) -> Option<u64> {
    match ttl {
        Some(t) => Some(if now + t > u64::MAX { u64::MAX } else { (now + t) as u64 }),
        None => None,
    }
}

/// Storing a new key in a full, well-formed table evicts exactly the least
/// recently used key, keeps every other key, and leaves the table at capacity.
pub proof fn law_lru_eviction(s: Store, k: Seq<char>, e: (ValModel, Option<u64>))
    requires
        s.wf(),
        !s.entries().contains_key(k),
        s.order().len() == s.capacity(),
    ensures
        ({
            let (e2, o2) = put_step(s.entries(), s.order(), s.capacity(), k, e);
            &&& !e2.contains_key(s.order()[0])
            &&& e2.contains_key(k)
            &&& forall|x: Seq<char>|
                s.entries().contains_key(x) && x != s.order()[0] ==> #[trigger] e2.contains_key(x)
            &&& o2.len() == s.capacity()
            &&& o2.no_duplicates()
        }),
{
    let o = s.order();
    assert(o.contains(o[0]));
    lemma_drop_first(o);
    assert(!o.drop_first().contains(k));
    lemma_push(o.drop_first(), k);
}

/// Whatever the table held, a value just stored without expiry is what a lookup
/// of its key sees, at any time.
pub proof fn law_stored_value_is_seen(
    entries: Map<Seq<char>, (ValModel, Option<u64>)>,
    order: Seq<Seq<char>>,
    cap: nat,
    k: Seq<char>,
    v: ValModel,
    now: u64,
)
    ensures
        live(put_step(entries, order, cap, k, (v, None)).0, k, now) == Some(v),
{
}

/// Whatever the table held, an entry stored with a positive time-to-live at `now`
/// is seen by a lookup at `now`, and by none at or after its expiry.
pub proof fn law_ttl(
    entries: Map<Seq<char>, (ValModel, Option<u64>)>,
    order: Seq<Seq<char>>,
    cap: nat,
    k: Seq<char>,
    v: ValModel,
    ttl: u64,
    now: u64,
    later: u64,
)
    requires
        ttl > 0,
        later >= now + ttl,
    ensures
        ({
            let (e2, o2) = put_step(entries, order, cap, k, (v, expiry_of(Some(ttl), now)));
            &&& live(e2, k, now) == Some(v)
            &&& live(e2, k, later) is None
        }),
{
}

proof fn lemma_without(s: Seq<Seq<char>>, k: Seq<char>)
    requires
        s.no_duplicates(),
    ensures
        without(s, k).no_duplicates(),
        s.contains(k) ==> without(s, k).len() == s.len() - 1,
        !s.contains(k) ==> without(s, k) == s,
        forall|x: Seq<char>| #[trigger]
            without(s, k).contains(x) <==> (s.contains(x) && x != k),
{
    if s.contains(k) {
        let i = s.index_of(k);
        let r = s.remove(i);
        assert forall|x: Seq<char>| #[trigger] r.contains(x) <==> (s.contains(x) && x != k) by {
            if r.contains(x) {
                let j = choose|j: int| 0 <= j < r.len() && r[j] == x;
                if j < i {
                    assert(s[j] == x);
                } else {
                    assert(s[j + 1] == x);
                }
            }
            if s.contains(x) && x != k {
                let j = choose|j: int| 0 <= j < s.len() && s[j] == x;
                if j < i {
                    assert(r[j] == x);
                } else {
                    assert(j != i);
                    assert(r[j - 1] == x);
                }
            }
        }
    }
}

proof fn lemma_drop_first(s: Seq<Seq<char>>)
    requires
        s.no_duplicates(),
        s.len() > 0,
    ensures
        s.drop_first().no_duplicates(),
        forall|x: Seq<char>| #[trigger]
            s.drop_first().contains(x) <==> (s.contains(x) && x != s[0]),
{
    let r = s.drop_first();
    assert forall|x: Seq<char>| #[trigger] r.contains(x) <==> (s.contains(x) && x != s[0]) by {
        if r.contains(x) {
            let j = choose|j: int| 0 <= j < r.len() && r[j] == x;
            assert(s[j + 1] == x);
        }
        if s.contains(x) && x != s[0] {
            let j = choose|j: int| 0 <= j < s.len() && s[j] == x;
            assert(r[j - 1] == x);
        }
    }
}

pub(crate) proof fn lemma_push(s: Seq<Seq<char>>, k: Seq<char>)
    requires
        s.no_duplicates(),
        !s.contains(k),
    ensures
        s.push(k).no_duplicates(),
        forall|x: Seq<char>| #[trigger] s.push(k).contains(x) <==> (s.contains(x) || x == k),
{
    let r = s.push(k);
    assert forall|x: Seq<char>| #[trigger] r.contains(x) <==> (s.contains(x) || x == k) by {
        if r.contains(x) {
            let j = choose|j: int| 0 <= j < r.len() && r[j] == x;
            if j < s.len() {
                assert(s[j] == x);
            }
        }
        if s.contains(x) {
            let j = choose|j: int| 0 <= j < s.len() && s[j] == x;
            assert(r[j] == x);
        }
        if x == k {
            assert(r[s.len() as int] == x);
        }
    }
}

} // verus!
