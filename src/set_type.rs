use vstd::prelude::*;
use vstd::string::StringExecFns;

use crate::error::StoreError;
use crate::store::{live, lookup_step, put_step, strings_view, Store, StoreVal, ValModel};

verus! {

/// The members a lookup of `k` sees, or why there are none.
pub open spec fn members_at(
    entries: Map<Seq<char>, (ValModel, Option<u64>)>,
    k: Seq<char>,
    now: u64,
) -> Result<Seq<Seq<char>>, StoreError> {
    match live(entries, k, now) {
        None => Err(StoreError::KeyNotFound),
        Some(ValModel::Members(s)) => Ok(s),
        Some(_) => Err(StoreError::WrongType),
    }
}

/// `s` with each of `m` that it lacks added at the end, in order.
pub open spec fn add_members(s: Seq<Seq<char>>, m: Seq<Seq<char>>) -> Seq<Seq<char>>
    decreases m.len(),
{
    if m.len() == 0 {
        s
    } else {
        let p = add_members(s, m.drop_last());
        if p.contains(m.last()) {
            p
        } else {
            p.push(m.last())
        }
    }
}

/// The first error among the lookups of `ks`, in order.
pub open spec fn first_err(
    entries: Map<Seq<char>, (ValModel, Option<u64>)>,
    ks: Seq<Seq<char>>,
    now: u64,
) -> Option<StoreError>
    decreases ks.len(),
{
    if ks.len() == 0 {
        None
    } else {
        match first_err(entries, ks.drop_last(), now) {
            Some(e) => Some(e),
            None => match members_at(entries, ks.last(), now) {
                Err(e) => Some(e),
                Ok(_) => None,
            },
        }
    }
}

/// `x` is a member of the set at one of `ks[1..]`.
pub open spec fn in_later(
    entries: Map<Seq<char>, (ValModel, Option<u64>)>,
    ks: Seq<Seq<char>>,
    now: u64,
    x: Seq<char>,
) -> bool {
    exists|i: int|
        1 <= i < ks.len() && members_at(entries, ks[i], now) is Ok && members_at(
            entries,
            ks[i],
            now,
        )->Ok_0.contains(x)
}

/// Adding members keeps the members unique and yields the union.
pub proof fn law_sadd_union(s: Seq<Seq<char>>, m: Seq<Seq<char>>)
    requires
        s.no_duplicates(),
    ensures
        add_members(s, m).no_duplicates(),
        add_members(s, m).len() >= s.len(),
        add_members(s, m).subrange(0, s.len() as int) == s,
        forall|x: Seq<char>| #[trigger]
            add_members(s, m).contains(x) <==> (s.contains(x) || m.contains(x)),
    decreases m.len(),
{
    if m.len() > 0 {
        let p = add_members(s, m.drop_last());
        law_sadd_union(s, m.drop_last());
        assert forall|x: Seq<char>| #[trigger]
            add_members(s, m).contains(x) <==> (s.contains(x) || m.contains(x)) by {
            if m.contains(x) && !m.drop_last().contains(x) {
                let i = choose|i: int| 0 <= i < m.len() && m[i] == x;
                if i < m.len() - 1 {
                    assert(m.drop_last()[i] == x);
                }
            }
            if m.drop_last().contains(x) {
                let i = choose|i: int| 0 <= i < m.len() - 1 && m.drop_last()[i] == x;
                assert(m[i] == x);
            }
            if !p.contains(m.last()) {
                if p.push(m.last()).contains(x) {
                    let i = choose|i: int| 0 <= i < p.len() + 1 && p.push(m.last())[i] == x;
                    if i < p.len() {
                        assert(p[i] == x);
                    }
                }
                if p.contains(x) {
                    let i = choose|i: int| 0 <= i < p.len() && p[i] == x;
                    assert(p.push(m.last())[i] == x);
                }
                if x == m.last() {
                    assert(p.push(m.last())[p.len() as int] == x);
                }
            }
        }
        assert(add_members(s, m).subrange(0, s.len() as int) =~= s);
    } else {
        assert(s.subrange(0, s.len() as int) =~= s);
    }
}

proof fn lemma_members_unique(st: Store, k: Seq<char>, now: u64)
    requires
        st.wf(),
        members_at(st.entries(), k, now) is Ok,
    ensures
        members_at(st.entries(), k, now)->Ok_0.no_duplicates(),
{
    assert(st.entries().dom().contains(k));
}

proof fn lemma_first_err_prefix(
    entries: Map<Seq<char>, (ValModel, Option<u64>)>,
    ks: Seq<Seq<char>>,
    i: int,
    now: u64,
)
    requires
        0 <= i <= ks.len(),
        first_err(entries, ks.subrange(0, i), now) is Some,
    ensures
        first_err(entries, ks, now) == first_err(entries, ks.subrange(0, i), now),
    decreases ks.len() - i,
{
    if i < ks.len() {
        assert(ks.drop_last().subrange(0, i) =~= ks.subrange(0, i));
        lemma_first_err_prefix(entries, ks.drop_last(), i, now);
    } else {
        assert(ks.subrange(0, i) =~= ks);
    }
}

fn contains_str(v: &Vec<String>, x: &String) -> (r: bool)
    ensures
        r == strings_view(v@).contains(x@),
{
    let mut i: usize = 0;
    while i < v.len()
        invariant
            i <= v@.len(),
            forall|j: int| 0 <= j < i ==> v@[j]@ != x@,
        decreases v@.len() - i,
    {
        if v[i] == *x {
            proof {
                assert(strings_view(v@)[i as int] == x@);
            }
            return true;
        }
        i = i + 1;
    }
    proof {
        if strings_view(v@).contains(x@) {
            let j = choose|j: int| 0 <= j < v@.len() && strings_view(v@)[j] == x@;
            assert(v@[j]@ == x@);
        }
    }
    false
}

/// Set commands over a store.
pub struct SetType;

impl SetType {
    fn lookup_set(store: &mut Store, key: &str, now: u64) -> (r: Result<Vec<String>, StoreError>)
        requires
            old(store).wf(),
        ensures
            final(store).wf(),
            final(store).capacity() == old(store).capacity(),
            (final(store).entries(), final(store).order()) == lookup_step(
                old(store).entries(),
                old(store).order(),
                key@,
                now,
            ),
            forall|k: Seq<char>| #[trigger]
                live(final(store).entries(), k, now) == live(old(store).entries(), k, now),
            match members_at(old(store).entries(), key@, now) {
                Ok(s) => r is Ok && strings_view(r->Ok_0@) == s,
                Err(e) => r == Err::<Vec<String>, StoreError>(e),
            },
    {
        match store.get(key, now) {
            None => Err(StoreError::KeyNotFound),
            Some(StoreVal::Members(s)) => Ok(s),
            Some(_) => Err(StoreError::WrongType),
        }
    }

    /// Adds `values` to the set at `key`, creating it when absent, and returns how
    /// many were not members before. The set keeps no expiry.
    pub fn sadd(store: &mut Store, key: &str, values: &Vec<String>, now: u64) -> (r: Result<
        usize,
        StoreError,
    >)
        requires
            old(store).wf(),
        ensures
            final(store).wf(),
            final(store).capacity() == old(store).capacity(),
            ({
                let l = lookup_step(old(store).entries(), old(store).order(), key@, now);
                let cur = match members_at(old(store).entries(), key@, now) {
                    Ok(s) => s,
                    Err(_) => Seq::empty(),
                };
                let t = add_members(cur, strings_view(values@));
                match members_at(old(store).entries(), key@, now) {
                    Err(StoreError::WrongType) => r == Err::<usize, StoreError>(
                        StoreError::WrongType,
                    ) && (final(store).entries(), final(store).order()) == l,
                    _ => r == Ok::<usize, StoreError>((t.len() - cur.len()) as usize) && (
                    final(store).entries(), final(store).order()) == put_step(
                        l.0,
                        l.1,
                        old(store).capacity(),
                        key@,
                        (ValModel::Members(t), None),
                    ),
                }
            }),
    {
        let mut set = match SetType::lookup_set(store, key, now) {
            Ok(s) => s,
            Err(StoreError::KeyNotFound) => Vec::new(),
            Err(e) => {
                return Err(e);
            },
        };
        let ghost cur = strings_view(set@);
        proof {
            let expect = match members_at(old(store).entries(), key@, now) {
                Ok(s) => s,
                Err(_) => Seq::<Seq<char>>::empty(),
            };
            assert(cur =~= expect);
        }
        let ghost vv = strings_view(values@);
        let mut count: usize = 0;
        let mut i: usize = 0;
        while i < values.len()
            invariant
                i <= values@.len(),
                vv == strings_view(values@),
                strings_view(set@) == add_members(cur, vv.subrange(0, i as int)),
                count as int == set@.len() - cur.len(),
                set@.len() >= cur.len(),
                set@.len() <= cur.len() + i,
            decreases values@.len() - i,
        {
            proof {
                assert(vv.subrange(0, i + 1).drop_last() =~= vv.subrange(0, i as int));
                assert(vv.subrange(0, i + 1).last() == values@[i as int]@);
            }
            if !contains_str(&set, &values[i]) {
                set.push(values[i].clone());
                count = count + 1;
                proof {
                    assert(strings_view(set@) =~= add_members(cur, vv.subrange(0, i + 1)));
                }
            }
            i = i + 1;
        }
        proof {
            assert(vv.subrange(0, values@.len() as int) =~= vv);
            if members_at(old(store).entries(), key@, now) is Ok {
                lemma_members_unique(*old(store), key@, now);
            }
            law_sadd_union(cur, vv);
            assert(strings_view(set@) == add_members(cur, vv));
        }
        store.set(String::from_str(key), StoreVal::Members(set), None, now);
        Ok(count)
    }

    /// The number of members of the set at `key`.
    pub fn scard(store: &mut Store, key: &str, now: u64) -> (r: Result<usize, StoreError>)
        requires
            old(store).wf(),
        ensures
            final(store).wf(),
            final(store).capacity() == old(store).capacity(),
            (final(store).entries(), final(store).order()) == lookup_step(
                old(store).entries(),
                old(store).order(),
                key@,
                now,
            ),
            match members_at(old(store).entries(), key@, now) {
                Ok(s) => r == Ok::<usize, StoreError>(s.len() as usize),
                Err(e) => r == Err::<usize, StoreError>(e),
            },
    {
        match SetType::lookup_set(store, key, now) {
            Ok(s) => Ok(s.len()),
            Err(e) => Err(e),
        }
    }

    /// Whether `value` is a member of the set at `key`.
    pub fn sismember(store: &mut Store, key: &str, value: &str, now: u64) -> (r: Result<
        bool,
        StoreError,
    >)
        requires
            old(store).wf(),
        ensures
            final(store).wf(),
            final(store).capacity() == old(store).capacity(),
            (final(store).entries(), final(store).order()) == lookup_step(
                old(store).entries(),
                old(store).order(),
                key@,
                now,
            ),
            match members_at(old(store).entries(), key@, now) {
                Ok(s) => r == Ok::<bool, StoreError>(s.contains(value@)),
                Err(e) => r == Err::<bool, StoreError>(e),
            },
    {
        match SetType::lookup_set(store, key, now) {
            Ok(s) => Ok(contains_str(&s, &String::from_str(value))),
            Err(e) => Err(e),
        }
    }

    /// The members of the first set that are in none of the later ones. Every key
    /// must hold a set; the first that does not gives the error.
    pub fn sdiff(store: &mut Store, keys: &Vec<String>, now: u64) -> (r: Result<
        Vec<String>,
        StoreError,
    >)
        requires
            old(store).wf(),
        ensures
            final(store).wf(),
            final(store).capacity() == old(store).capacity(),
            forall|k: Seq<char>| #[trigger]
                live(final(store).entries(), k, now) == live(old(store).entries(), k, now),
            keys@.len() == 0 ==> r is Ok && r->Ok_0@.len() == 0,
            keys@.len() > 0 ==> match first_err(old(store).entries(), strings_view(keys@), now) {
                Some(e) => r == Err::<Vec<String>, StoreError>(e),
                None => r is Ok && strings_view(r->Ok_0@).no_duplicates() && forall|x: Seq<char>| #[trigger]
                    strings_view(r->Ok_0@).contains(x) <==> (members_at(
                        old(store).entries(),
                        keys@[0]@,
                        now,
                    )->Ok_0.contains(x) && !in_later(
                        old(store).entries(),
                        strings_view(keys@),
                        now,
                        x,
                    )),
            },
    {
        if keys.len() == 0 {
            return Ok(Vec::new());
        }
        let ghost kv = strings_view(keys@);
        let ghost e0 = old(store).entries();
        let mut i: usize = 0;
        while i < keys.len()
            invariant
                store.wf(),
                store.capacity() == old(store).capacity(),
                forall|k: Seq<char>| #[trigger] live(store.entries(), k, now) == live(e0, k, now),
                e0 == old(store).entries(),
                kv == strings_view(keys@),
                i <= keys@.len(),
                first_err(e0, kv.subrange(0, i as int), now) is None,
                forall|j: int| 0 <= j < i ==> #[trigger] members_at(e0, kv[j], now) is Ok,
            decreases keys@.len() - i,
        {
            proof {
                assert(kv.subrange(0, i + 1).drop_last() =~= kv.subrange(0, i as int));
                assert(kv.subrange(0, i + 1).last() == kv[i as int]);
                assert(kv[i as int] == keys@[i as int]@);
                assert(live(store.entries(), kv[i as int], now) == live(e0, kv[i as int], now));
            }
            match SetType::lookup_set(store, keys[i].as_str(), now) {
                Ok(_) => {},
                Err(e) => {
                    proof {
                        lemma_first_err_prefix(e0, kv, i + 1, now);
                    }
                    return Err(e);
                },
            }
            i = i + 1;
        }
        proof {
            assert(kv.subrange(0, keys@.len() as int) =~= kv);
            assert(kv[0] == keys@[0]@);
            assert(live(store.entries(), kv[0], now) == live(e0, kv[0], now));
        }
        let n = keys.len();
        let base = match SetType::lookup_set(store, keys[0].as_str(), now) {
            Ok(s) => s,
            Err(e) => {
                return Err(e);
            },
        };
        let ghost bv = strings_view(base@);
        proof {
            lemma_members_unique(*old(store), kv[0], now);
        }
        let mut out: Vec<String> = Vec::new();
        let mut b: usize = 0;
        while b < base.len()
            invariant
                store.wf(),
                store.capacity() == old(store).capacity(),
                forall|k: Seq<char>| #[trigger] live(store.entries(), k, now) == live(e0, k, now),
                n == kv.len(),
                n == keys@.len(),
                kv == strings_view(keys@),
                n > 0,
                b <= base@.len(),
                bv == strings_view(base@),
                bv == members_at(e0, kv[0], now)->Ok_0,
                bv.no_duplicates(),
                strings_view(out@).no_duplicates(),
                forall|j: int| 0 <= j < n ==> #[trigger] members_at(e0, kv[j], now) is Ok,
                forall|x: Seq<char>| #[trigger]
                    strings_view(out@).contains(x) <==> (bv.subrange(0, b as int).contains(x)
                        && !in_later(e0, kv, now, x)),
            decreases base@.len() - b,
        {
            let x = &base[b];
            let mut found = false;
            let mut j: usize = 1;
            while j < n
                invariant
                    store.wf(),
                    store.capacity() == old(store).capacity(),
                    forall|k: Seq<char>| #[trigger] live(store.entries(), k, now) == live(e0, k, now),
                    1 <= j <= n,
                    n == kv.len(),
                    n == keys@.len(),
                    kv == strings_view(keys@),
                    forall|jj: int| 0 <= jj < n ==> #[trigger] members_at(e0, kv[jj], now) is Ok,
                    found == exists|jj: int|
                        1 <= jj < j && #[trigger] members_at(e0, kv[jj], now)->Ok_0.contains(x@),
                decreases n - j,
            {
                proof {
                    assert(kv[j as int] == keys@[j as int]@);
                    assert(live(store.entries(), kv[j as int], now) == live(e0, kv[j as int], now));
                    assert(members_at(e0, kv[j as int], now) is Ok);
                }
                match SetType::lookup_set(store, keys[j].as_str(), now) {
                    Ok(s) => {
                        if contains_str(&s, x) {
                            found = true;
                        }
                    },
                    Err(_) => {},
                }
                j = j + 1;
            }
            let ghost before = bv.subrange(0, b as int);
            let ghost after = bv.subrange(0, b + 1);
            proof {
                assert(x@ == bv[b as int]);
                assert(found == in_later(e0, kv, now, x@)) by {
                    if found {
                        let jj = choose|jj: int|
                            1 <= jj < n && #[trigger] members_at(e0, kv[jj], now)->Ok_0.contains(x@);
                        assert(members_at(e0, kv[jj], now) is Ok);
                    }
                    if in_later(e0, kv, now, x@) {
                        let jj = choose|jj: int|
                            1 <= jj < kv.len() && members_at(e0, kv[jj], now) is Ok
                                && members_at(e0, kv[jj], now)->Ok_0.contains(x@);
                        assert(members_at(e0, kv[jj], now)->Ok_0.contains(x@));
                    }
                }
                assert forall|y: Seq<char>| #[trigger] after.contains(y) <==> (before.contains(y)
                    || y == x@) by {
                    if after.contains(y) {
                        let k = choose|k: int| 0 <= k < after.len() && after[k] == y;
                        if k < b {
                            assert(before[k] == y);
                        }
                    }
                    if before.contains(y) {
                        let k = choose|k: int| 0 <= k < before.len() && before[k] == y;
                        assert(after[k] == y);
                    }
                    if y == x@ {
                        assert(after[b as int] == y);
                    }
                }
            }
            if !found {
                let ghost prev = out@;
                proof {
                    assert(!before.contains(x@)) by {
                        if before.contains(x@) {
                            let k = choose|k: int| 0 <= k < before.len() && before[k] == x@;
                            assert(bv[k] == bv[b as int]);
                        }
                    }
                    assert(!strings_view(prev).contains(x@));
                    crate::store::lemma_push(strings_view(prev), x@);
                }
                out.push(x.clone());
                proof {
                    assert(strings_view(out@) =~= strings_view(prev).push(x@));
                    assert forall|y: Seq<char>| #[trigger] strings_view(out@).contains(y) <==> (
                    strings_view(prev).contains(y) || y == x@) by {
                        if strings_view(out@).contains(y) {
                            let k = choose|k: int|
                                0 <= k < out@.len() && strings_view(out@)[k] == y;
                            if k < prev.len() {
                                assert(strings_view(prev)[k] == y);
                            }
                        }
                        if strings_view(prev).contains(y) {
                            let k = choose|k: int|
                                0 <= k < prev.len() && strings_view(prev)[k] == y;
                            assert(strings_view(out@)[k] == y);
                        }
                        if y == x@ {
                            assert(strings_view(out@)[prev.len() as int] == y);
                        }
                    }
                }
            }
            b = b + 1;
        }
        proof {
            assert(bv.subrange(0, base@.len() as int) =~= bv);
        }
        Ok(out)
    }

}

} // verus!
