use vstd::prelude::*;
use vstd::string::StrSliceExecFns;
use vstd::string::StringExecFns;
use vstd::string::StringSliceAdditionalSpecFns;

use crate::error::StoreError;
use crate::num::{decimal, format_i64, format_usize, i64_of, parse_i64};
use crate::store::{expiry_of, live, lookup_step, put_step, Entry, Store, StoreVal, ValModel};

verus! {

/// The string a lookup of `k` sees, or why there is none.
pub open spec fn str_at(
    entries: Map<Seq<char>, (ValModel, Option<u64>)>,
    k: Seq<char>,
    now: u64,
) -> Result<Seq<char>, StoreError> {
    match live(entries, k, now) {
        None => Err(StoreError::KeyNotFound),
        Some(ValModel::Str(s)) => Ok(s),
        Some(_) => Err(StoreError::WrongType),
    }
}

/// The integer `delta` steps from the current string value; an absent key counts as 0.
pub open spec fn add_result(cur: Result<Seq<char>, StoreError>, delta: int) -> Result<
    i64,
    StoreError,
> {
    match cur {
        Err(StoreError::KeyNotFound) => fit_i64(delta),
        Err(e) => Err(e),
        Ok(s) => match i64_of(s) {
            Some(v) => fit_i64(v + delta),
            None => Err(StoreError::NotAnInteger),
        },
    }
}

pub open spec fn fit_i64(v: int) -> Result<i64, StoreError> {
    if i64::MIN <= v <= i64::MAX {
        Ok(v as i64)
    } else {
        Err(StoreError::NotAnInteger)
    }
}

/// The table and order after a lookup of `k` followed by storing `e` under it.
pub open spec fn lookup_then_put(
    s: Store,
    k: Seq<char>,
    now: u64,
    e: (ValModel, Option<u64>),
) -> (Map<Seq<char>, (ValModel, Option<u64>)>, Seq<Seq<char>>) {
    let l = lookup_step(s.entries(), s.order(), k, now);
    put_step(l.0, l.1, s.capacity(), k, e)
}


/// Substring extraction: both bounds wrap modulo the length (so -1 is the last
/// character), the range is inclusive, and an empty string yields itself.
pub open spec fn range_of(s: Seq<char>, start: int, end: int) -> Result<Seq<char>, StoreError> {
    if s.len() == 0 {
        Ok(s)
    } else {
        let a = start % (s.len() as int);
        let b = end % (s.len() as int);
        if a > b {
            Err(StoreError::InvalidRange)
        } else {
            Ok(s.subrange(a, b + 1))
        }
    }
}

/// Length of a longest common subsequence, by the usual recurrence on prefixes.
pub open spec fn lcs_len(a: Seq<char>, b: Seq<char>) -> nat
    decreases a.len() + b.len(),
{
    if a.len() == 0 || b.len() == 0 {
        0
    } else if a.last() == b.last() {
        lcs_len(a.drop_last(), b.drop_last()) + 1
    } else {
        let x = lcs_len(a.drop_last(), b);
        let y = lcs_len(a, b.drop_last());
        if x >= y {
            x
        } else {
            y
        }
    }
}

/// `s` can be had from `t` by leaving characters out.
pub open spec fn is_subseq(s: Seq<char>, t: Seq<char>) -> bool
    decreases t.len(),
{
    s.len() == 0 || (t.len() > 0 && ((s[0] == t[0] && is_subseq(s.drop_first(), t.drop_first()))
        || is_subseq(s, t.drop_first())))
}

/// The word `LEN`, in any case.
pub open spec fn is_len_word(m: Seq<char>) -> bool {
    &&& m.len() == 3
    &&& (m[0] == 'L' || m[0] == 'l')
    &&& (m[1] == 'E' || m[1] == 'e')
    &&& (m[2] == 'N' || m[2] == 'n')
}

/// The table and order after storing each pair in turn, with no expiry.
pub open spec fn set_all(
    entries: Map<Seq<char>, (ValModel, Option<u64>)>,
    order: Seq<Seq<char>>,
    cap: nat,
    pairs: Seq<(Seq<char>, Seq<char>)>,
) -> (Map<Seq<char>, (ValModel, Option<u64>)>, Seq<Seq<char>>)
    decreases pairs.len(),
{
    if pairs.len() == 0 {
        (entries, order)
    } else {
        let p = set_all(entries, order, cap, pairs.drop_last());
        put_step(p.0, p.1, cap, pairs.last().0, (ValModel::Str(pairs.last().1), None))
    }
}

proof fn lemma_lcs_bound(a: Seq<char>, b: Seq<char>)
    ensures
        lcs_len(a, b) <= a.len(),
        lcs_len(a, b) <= b.len(),
    decreases a.len() + b.len(),
{
    if a.len() > 0 && b.len() > 0 {
        lemma_lcs_bound(a.drop_last(), b.drop_last());
        lemma_lcs_bound(a.drop_last(), b);
        lemma_lcs_bound(a, b.drop_last());
    }
}

proof fn lemma_subseq_extend(s: Seq<char>, t: Seq<char>, i: int)
    requires
        0 <= i <= t.len(),
        is_subseq(s, t.subrange(i, t.len() as int)),
    ensures
        is_subseq(s, t),
    decreases i,
{
    if i > 0 {
        let u = t.subrange(i - 1, t.len() as int);
        assert(u.drop_first() =~= t.subrange(i, t.len() as int));
        assert(is_subseq(s, u));
        lemma_subseq_extend(s, t, i - 1);
    } else {
        assert(t.subrange(0, t.len() as int) =~= t);
    }
}

/// `i` wrapped into `0..len`, counting negative values from the end.
fn wrap_index(i: isize, len: usize) -> (r: usize)
    requires
        len > 0,
    ensures
        r as int == (i as int) % (len as int),
{
    if i >= 0 {
        (i as usize) % len
    } else {
        let m: u128 = (0 - (i as i128)) as u128;
        let l: u128 = len as u128;
        let rem: u128 = m % l;
        proof {
            vstd::arithmetic::div_mod::lemma_fundamental_div_mod(m as int, l as int);
            let q = (m as int) / (l as int);
            if rem == 0 {
                assert(i as int == (-q) * (l as int) + 0) by (nonlinear_arith)
                    requires
                        m as int == q * (l as int) + rem as int,
                        rem == 0,
                        i as int == -(m as int),
                ;
                vstd::arithmetic::div_mod::lemma_fundamental_div_mod_converse(
                    i as int,
                    l as int,
                    -q,
                    0,
                );
            } else {
                assert(i as int == (-q - 1) * (l as int) + (l - rem) as int) by (nonlinear_arith)
                    requires
                        m as int == q * (l as int) + rem as int,
                        i as int == -(m as int),
                ;
                vstd::arithmetic::div_mod::lemma_fundamental_div_mod_converse(
                    i as int,
                    l as int,
                    -q - 1,
                    (l - rem) as int,
                );
            }
        }
        if rem == 0 {
            0
        } else {
            (l - rem) as usize
        }
    }
}

fn chars_of(s: &str) -> (r: Vec<char>)
    ensures
        r@ == s@,
{
    let n = s.unicode_len();
    let mut r: Vec<char> = Vec::new();
    let mut i: usize = 0;
    while i < n
        invariant
            n == s@.len(),
            i <= n,
            r@ == s@.subrange(0, i as int),
        decreases n - i,
    {
        r.push(s.get_char(i));
        i = i + 1;
        proof {
            assert(r@ =~= s@.subrange(0, i as int));
        }
    }
    proof {
        assert(r@ =~= s@);
    }
    r
}

fn is_len_mode(m: &str) -> (r: bool)
    ensures
        r == is_len_word(m@),
{
    if m.unicode_len() != 3 {
        return false;
    }
    let c0 = m.get_char(0);
    let c1 = m.get_char(1);
    let c2 = m.get_char(2);
    (c0 == 'L' || c0 == 'l') && (c1 == 'E' || c1 == 'e') && (c2 == 'N' || c2 == 'n')
}

/// The table of longest-common-subsequence lengths of all prefix pairs.
fn lcs_table(a: &Vec<char>, b: &Vec<char>) -> (t: Vec<Vec<usize>>)
    ensures
        t@.len() == a@.len() + 1,
        forall|i: int| 0 <= i <= a@.len() ==> (#[trigger] t@[i])@.len() == b@.len() + 1,
        forall|i: int, j: int|
            0 <= i <= a@.len() && 0 <= j <= b@.len() ==> #[trigger] t@[i]@[j] == lcs_len(
                a@.subrange(0, i),
                b@.subrange(0, j),
            ),
{
    let na = a.len();
    let nb = b.len();
    let mut t: Vec<Vec<usize>> = Vec::new();
    let mut row0: Vec<usize> = Vec::new();
    row0.push(0);
    let mut j: usize = 0;
    while j < nb
        invariant
            j <= nb,
            nb == b@.len(),
            row0@.len() == j + 1,
            forall|jj: int| 0 <= jj <= j ==> row0@[jj] == 0,
        decreases nb - j,
    {
        row0.push(0);
        j = j + 1;
    }
    t.push(row0);
    let mut i: usize = 0;
    while i < na
        invariant
            i <= na,
            na == a@.len(),
            nb == b@.len(),
            t@.len() == i + 1,
            forall|ii: int| 0 <= ii <= i ==> (#[trigger] t@[ii])@.len() == nb + 1,
            forall|ii: int, jj: int|
                0 <= ii <= i && 0 <= jj <= nb ==> #[trigger] t@[ii]@[jj] == lcs_len(
                    a@.subrange(0, ii),
                    b@.subrange(0, jj),
                ),
        decreases na - i,
    {
        let mut row: Vec<usize> = Vec::new();
        row.push(0);
        let mut j: usize = 0;
        while j < nb
            invariant
                i < na,
                j <= nb,
                na == a@.len(),
                nb == b@.len(),
                t@.len() == i + 1,
                forall|ii: int| 0 <= ii <= i ==> (#[trigger] t@[ii])@.len() == nb + 1,
                forall|ii: int, jj: int|
                    0 <= ii <= i && 0 <= jj <= nb ==> #[trigger] t@[ii]@[jj] == lcs_len(
                        a@.subrange(0, ii),
                        b@.subrange(0, jj),
                    ),
                row@.len() == j + 1,
                forall|jj: int|
                    0 <= jj <= j ==> #[trigger] row@[jj] == lcs_len(
                        a@.subrange(0, i + 1),
                        b@.subrange(0, jj),
                    ),
            decreases nb - j,
        {
            let ghost ap = a@.subrange(0, i + 1);
            let ghost bp = b@.subrange(0, j + 1);
            proof {
                assert(ap.drop_last() =~= a@.subrange(0, i as int));
                assert(bp.drop_last() =~= b@.subrange(0, j as int));
                lemma_lcs_bound(a@.subrange(0, i as int), b@.subrange(0, j as int));
            }
            let v: usize = if a[i] == b[j] {
                t[i][j] + 1
            } else {
                let up = t[i][j + 1];
                let left = row[j];
                if up >= left {
                    up
                } else {
                    left
                }
            };
            row.push(v);
            j = j + 1;
        }
        t.push(row);
        i = i + 1;
    }
    t
}

/// A longest common subsequence of `a` and `b`, and its length.
pub fn find_lcs(a: &str, b: &str) -> (r: (String, usize))
    ensures
        r.1 == lcs_len(a@, b@),
        r.0@.len() == r.1,
        is_subseq(r.0@, a@),
        is_subseq(r.0@, b@),
{
    let av = chars_of(a);
    let bv = chars_of(b);
    let t = lcs_table(&av, &bv);
    let na = av.len();
    let nb = bv.len();
    let total = t[na][nb];
    let mut out: Vec<char> = Vec::new();
    let mut i: usize = na;
    let mut j: usize = nb;
    proof {
        assert(av@.subrange(0, na as int) =~= a@);
        assert(bv@.subrange(0, nb as int) =~= b@);
    }
    while i > 0 && j > 0
        invariant
            i <= na,
            j <= nb,
            na == av@.len(),
            nb == bv@.len(),
            t@.len() == na + 1,
            forall|ii: int| 0 <= ii <= na ==> (#[trigger] t@[ii])@.len() == nb + 1,
            forall|ii: int, jj: int|
                0 <= ii <= na && 0 <= jj <= nb ==> #[trigger] t@[ii]@[jj] == lcs_len(
                    av@.subrange(0, ii),
                    bv@.subrange(0, jj),
                ),
            out@.len() + t@[i as int]@[j as int] == total,
            total == lcs_len(a@, b@),
            is_subseq(out@, av@.subrange(i as int, na as int)),
            is_subseq(out@, bv@.subrange(j as int, nb as int)),
        decreases i + j,
    {
        let ghost ap = av@.subrange(0, i as int);
        let ghost bp = bv@.subrange(0, j as int);
        proof {
            assert(ap.drop_last() =~= av@.subrange(0, i - 1));
            assert(bp.drop_last() =~= bv@.subrange(0, j - 1));
            assert(av@.subrange(i - 1, na as int).drop_first() =~= av@.subrange(i as int, na as int));
            assert(bv@.subrange(j - 1, nb as int).drop_first() =~= bv@.subrange(j as int, nb as int));
        }
        if av[i - 1] == bv[j - 1] {
            let ghost prev = out@;
            out.insert(0, av[i - 1]);
            proof {
                assert(out@.drop_first() =~= prev);
            }
            i = i - 1;
            j = j - 1;
        } else if t[i - 1][j] >= t[i][j - 1] {
            i = i - 1;
        } else {
            j = j - 1;
        }
    }
    proof {
        lemma_subseq_extend(out@, av@, i as int);
        lemma_subseq_extend(out@, bv@, j as int);
        assert(av@.subrange(0, i as int).len() == 0 || bv@.subrange(0, j as int).len() == 0);
    }
    (string_from_chars(&out), total)
}

/// Appending the empty string leaves a string as it was, however often it is done.
pub proof fn law_append_empty(s: Seq<char>, times: nat)
    ensures
        append_n(s, ""@, times) == s,
    decreases times,
{
    if times > 0 {
        law_append_empty(s, (times - 1) as nat);
        reveal_strlit("");
        assert(s + ""@ =~= s);
    }
}

/// Appending the empty string to a live string leaves the table exactly as it was
/// (value and expiry), so the key stays live and every further such append does
/// the same.
pub proof fn law_append_empty_keeps_table(st: Store, k: Seq<char>, now: u64)
    requires
        st.wf(),
        str_at(st.entries(), k, now) is Ok,
    ensures
        lookup_then_put(
            st,
            k,
            now,
            (ValModel::Str(str_at(st.entries(), k, now)->Ok_0 + ""@), st.entries()[k].1),
        ).0 == st.entries(),
{
    reveal_strlit("");
    let s = str_at(st.entries(), k, now)->Ok_0;
    assert(s + ""@ =~= s);
    let after = lookup_then_put(st, k, now, (ValModel::Str(s + ""@), st.entries()[k].1));
    assert(after.0 =~= st.entries());
}

/// `s` with `t` appended `times` times.
pub open spec fn append_n(s: Seq<char>, t: Seq<char>, times: nat) -> Seq<char>
    decreases times,
{
    if times == 0 {
        s
    } else {
        append_n(s, t, (times - 1) as nat) + t
    }
}

/// Relies on String's FromIterator<char>: the characters in order.
#[verifier::external_body]
fn string_from_chars(v: &Vec<char>) -> (r: String)
    ensures
        r@ == v@,
{
    v.iter().collect()
}

/// String commands over a store.
pub struct StringType;

impl StringType {
    fn lookup_str(store: &mut Store, key: &str, now: u64) -> (r: Result<String, StoreError>)
        requires
            old(store).wf(),
        ensures
            final(store).wf(),
            final(store).capacity() == old(store).capacity(),
            (final(store).entries(), final(store).order()) == lookup_step(
                old(store).entries(),
                old(store).order(),
                key@,
                now,
            ),
            forall|k: Seq<char>| #[trigger]
                live(final(store).entries(), k, now) == live(old(store).entries(), k, now),
            match str_at(old(store).entries(), key@, now) {
                Ok(s) => r is Ok && r->Ok_0@ == s,
                Err(e) => r == Err::<String, StoreError>(e),
            },
    {
        match store.get(key, now) {
            None => Err(StoreError::KeyNotFound),
            Some(StoreVal::Str(s)) => Ok(s),
            Some(_) => Err(StoreError::WrongType),
        }
    }

    /// The string stored at `key`.
    pub fn get(store: &mut Store, key: &str, now: u64) -> (r: Result<String, StoreError>)
        requires
            old(store).wf(),
        ensures
            final(store).wf(),
            final(store).capacity() == old(store).capacity(),
            (final(store).entries(), final(store).order()) == lookup_step(
                old(store).entries(),
                old(store).order(),
                key@,
                now,
            ),
            match str_at(old(store).entries(), key@, now) {
                Ok(s) => r is Ok && r->Ok_0@ == s,
                Err(e) => r == Err::<String, StoreError>(e),
            },
    {
        StringType::lookup_str(store, key, now)
    }

    /// Stores `value` at `key` with no expiry.
    pub fn set(store: &mut Store, key: &str, value: &str, now: u64)
        requires
            old(store).wf(),
        ensures
            final(store).wf(),
            final(store).capacity() == old(store).capacity(),
            (final(store).entries(), final(store).order()) == put_step(
                old(store).entries(),
                old(store).order(),
                old(store).capacity(),
                key@,
                (ValModel::Str(value@), None),
            ),
    {
        store.set(String::from_str(key), StoreVal::Str(String::from_str(value)), None, now);
    }

    /// Stores `value` at `key`, expiring `seconds` after `now`.
    pub fn set_ex(store: &mut Store, key: &str, value: &str, seconds: u64, now: u64)
        requires
            old(store).wf(),
        ensures
            final(store).wf(),
            final(store).capacity() == old(store).capacity(),
            (final(store).entries(), final(store).order()) == put_step(
                old(store).entries(),
                old(store).order(),
                old(store).capacity(),
                key@,
                (ValModel::Str(value@), expiry_of(Some(seconds), now)),
            ),
    {
        store.set(
            String::from_str(key),
            StoreVal::Str(String::from_str(value)),
            Some(seconds),
            now,
        );
    }

    /// Appends `value` to the string at `key`, keeping its expiry, or stores it
    /// there with no expiry when the key is absent.
    pub fn append(store: &mut Store, key: &str, value: &str, now: u64) -> (r: Result<
        (),
        StoreError,
    >)
        requires
            old(store).wf(),
        ensures
            final(store).wf(),
            final(store).capacity() == old(store).capacity(),
            match str_at(old(store).entries(), key@, now) {
                Err(StoreError::WrongType) => r == Err::<(), StoreError>(StoreError::WrongType)
                    && (final(store).entries(), final(store).order()) == lookup_step(
                    old(store).entries(),
                    old(store).order(),
                    key@,
                    now,
                ),
                Err(_) => r is Ok && (final(store).entries(), final(store).order())
                    == lookup_then_put(*old(store), key@, now, (ValModel::Str(value@), None)),
                Ok(s) => r is Ok && (final(store).entries(), final(store).order())
                    == lookup_then_put(
                    *old(store),
                    key@,
                    now,
                    (ValModel::Str(s + value@), old(store).entries()[key@].1),
                ),
            },
    {
        let (new_value, expiry) = match store.lookup(key, now) {
            Some(e) => match e.val {
                StoreVal::Str(s) => (s.concat(value), e.expiry),
                _ => {
                    return Err(StoreError::WrongType);
                },
            },
            None => (String::from_str(value), None),
        };
        store.put(String::from_str(key), Entry { val: StoreVal::Str(new_value), expiry });
        Ok(())
    }

    /// Adds `delta` to the integer stored at `key` (an absent key counts as 0) and
    /// stores the sum with no expiry. A value that is not an integer, or a sum
    /// outside the 64-bit range, is `NotAnInteger` and leaves the value as it was.
    pub fn incr_by(store: &mut Store, key: &str, delta: i64, now: u64) -> (r: Result<
        (),
        StoreError,
    >)
        requires
            old(store).wf(),
        ensures
            final(store).wf(),
            final(store).capacity() == old(store).capacity(),
            match add_result(str_at(old(store).entries(), key@, now), delta as int) {
                Ok(n) => r is Ok && (final(store).entries(), final(store).order())
                    == lookup_then_put(
                    *old(store),
                    key@,
                    now,
                    (ValModel::Str(decimal(n as int)), None),
                ),
                Err(e) => r == Err::<(), StoreError>(e) && (final(store).entries(), final(store).order()) == lookup_step(old(store).entries(), old(store).order(), key@, now),
            },
    {
        StringType::add(store, key, delta as i128, now)
    }

    /// Subtracts `delta` from the integer stored at `key`; see `incr_by`.
    pub fn decr_by(store: &mut Store, key: &str, delta: i64, now: u64) -> (r: Result<
        (),
        StoreError,
    >)
        requires
            old(store).wf(),
        ensures
            final(store).wf(),
            final(store).capacity() == old(store).capacity(),
            match add_result(str_at(old(store).entries(), key@, now), -(delta as int)) {
                Ok(n) => r is Ok && (final(store).entries(), final(store).order())
                    == lookup_then_put(
                    *old(store),
                    key@,
                    now,
                    (ValModel::Str(decimal(n as int)), None),
                ),
                Err(e) => r == Err::<(), StoreError>(e) && (final(store).entries(), final(store).order()) == lookup_step(old(store).entries(), old(store).order(), key@, now),
            },
    {
        StringType::add(store, key, 0 - (delta as i128), now)
    }

    /// Adds one to the integer stored at `key`; see `incr_by`.
    pub fn incr(store: &mut Store, key: &str, now: u64) -> (r: Result<(), StoreError>)
        requires
            old(store).wf(),
        ensures
            final(store).wf(),
            final(store).capacity() == old(store).capacity(),
            match add_result(str_at(old(store).entries(), key@, now), 1) {
                Ok(n) => r is Ok && (final(store).entries(), final(store).order())
                    == lookup_then_put(
                    *old(store),
                    key@,
                    now,
                    (ValModel::Str(decimal(n as int)), None),
                ),
                Err(e) => r == Err::<(), StoreError>(e) && (final(store).entries(), final(store).order()) == lookup_step(old(store).entries(), old(store).order(), key@, now),
            },
    {
        StringType::incr_by(store, key, 1, now)
    }

    /// Subtracts one from the integer stored at `key`; see `incr_by`.
    pub fn decr(store: &mut Store, key: &str, now: u64) -> (r: Result<(), StoreError>)
        requires
            old(store).wf(),
        ensures
            final(store).wf(),
            final(store).capacity() == old(store).capacity(),
            match add_result(str_at(old(store).entries(), key@, now), -1) {
                Ok(n) => r is Ok && (final(store).entries(), final(store).order())
                    == lookup_then_put(
                    *old(store),
                    key@,
                    now,
                    (ValModel::Str(decimal(n as int)), None),
                ),
                Err(e) => r == Err::<(), StoreError>(e) && (final(store).entries(), final(store).order()) == lookup_step(old(store).entries(), old(store).order(), key@, now),
            },
    {
        StringType::decr_by(store, key, 1, now)
    }

    fn add(store: &mut Store, key: &str, delta: i128, now: u64) -> (r: Result<(), StoreError>)
        requires
            old(store).wf(),
            -0x8000_0000_0000_0000 <= delta <= 0x8000_0000_0000_0000,
        ensures
            final(store).wf(),
            final(store).capacity() == old(store).capacity(),
            match add_result(str_at(old(store).entries(), key@, now), delta as int) {
                Ok(n) => r is Ok && (final(store).entries(), final(store).order())
                    == lookup_then_put(
                    *old(store),
                    key@,
                    now,
                    (ValModel::Str(decimal(n as int)), None),
                ),
                Err(e) => r == Err::<(), StoreError>(e) && (final(store).entries(), final(store).order()) == lookup_step(old(store).entries(), old(store).order(), key@, now),
            },
    {
        let cur = StringType::lookup_str(store, key, now);
        let base: i128 = match cur {
            Ok(s) => match parse_i64(s.as_str()) {
                Some(v) => v as i128,
                None => {
                    return Err(StoreError::NotAnInteger);
                },
            },
            Err(StoreError::KeyNotFound) => 0,
            Err(e) => {
                return Err(e);
            },
        };
        let sum: i128 = base + delta;
        if sum < -0x8000_0000_0000_0000 || sum > 0x7fff_ffff_ffff_ffff {
            return Err(StoreError::NotAnInteger);
        }
        let text = string_from_chars(&format_i64(sum as i64));
        store.set(String::from_str(key), StoreVal::Str(text), None, now);
        Ok(())
    }

    /// The string at `key`, which is then removed.
    pub fn get_del(store: &mut Store, key: &str, now: u64) -> (r: Result<String, StoreError>)
        requires
            old(store).wf(),
        ensures
            final(store).wf(),
            final(store).capacity() == old(store).capacity(),
            match str_at(old(store).entries(), key@, now) {
                Ok(s) => r is Ok && r->Ok_0@ == s && final(store).entries() == old(store).entries().remove(key@),
                Err(e) => r == Err::<String, StoreError>(e) && (final(store).entries(), final(store).order()) == lookup_step(old(store).entries(), old(store).order(), key@, now),
            },
    {
        let cur = StringType::lookup_str(store, key, now);
        match cur {
            Ok(s) => {
                store.delete(key);
                Ok(s)
            },
            Err(e) => Err(e),
        }
    }

    /// The string at `key`, which now expires `seconds` after `now`.
    pub fn get_ex(store: &mut Store, key: &str, seconds: u64, now: u64) -> (r: Result<
        String,
        StoreError,
    >)
        requires
            old(store).wf(),
        ensures
            final(store).wf(),
            final(store).capacity() == old(store).capacity(),
            match str_at(old(store).entries(), key@, now) {
                Ok(s) => r is Ok && r->Ok_0@ == s && (final(store).entries(), final(store).order())
                    == lookup_then_put(
                    *old(store),
                    key@,
                    now,
                    (ValModel::Str(s), expiry_of(Some(seconds), now)),
                ),
                Err(e) => r == Err::<String, StoreError>(e) && (final(store).entries(), final(store).order()) == lookup_step(old(store).entries(), old(store).order(), key@, now),
            },
    {
        let cur = StringType::lookup_str(store, key, now);
        match cur {
            Ok(s) => {
                let kept = s.clone();
                store.set(String::from_str(key), StoreVal::Str(kept), Some(seconds), now);
                Ok(s)
            },
            Err(e) => Err(e),
        }
    }

    /// The string at `key`, which is replaced by `value` with no expiry.
    pub fn get_set(store: &mut Store, key: &str, value: &str, now: u64) -> (r: Result<
        String,
        StoreError,
    >)
        requires
            old(store).wf(),
        ensures
            final(store).wf(),
            final(store).capacity() == old(store).capacity(),
            match str_at(old(store).entries(), key@, now) {
                Ok(s) => r is Ok && r->Ok_0@ == s && (final(store).entries(), final(store).order())
                    == lookup_then_put(*old(store), key@, now, (ValModel::Str(value@), None)),
                Err(e) => r == Err::<String, StoreError>(e) && (final(store).entries(), final(store).order()) == lookup_step(old(store).entries(), old(store).order(), key@, now),
            },
    {
        let cur = StringType::lookup_str(store, key, now);
        match cur {
            Ok(s) => {
                store.set(String::from_str(key), StoreVal::Str(String::from_str(value)), None, now);
                Ok(s)
            },
            Err(e) => Err(e),
        }
    }

    /// The length in bytes of the UTF-8 encoding of the string at `key`.
    pub fn str_len(store: &mut Store, key: &str, now: u64) -> (r: Result<usize, StoreError>)
        requires
            old(store).wf(),
        ensures
            final(store).wf(),
            final(store).capacity() == old(store).capacity(),
            (final(store).entries(), final(store).order()) == lookup_step(
                old(store).entries(),
                old(store).order(),
                key@,
                now,
            ),
            match str_at(old(store).entries(), key@, now) {
                Ok(s) => exists|t: &str|
                    t@ == s && r == Ok::<usize, StoreError>(#[trigger] t.spec_bytes().len() as usize),
                Err(e) => r == Err::<usize, StoreError>(e),
            },
    {
        match StringType::lookup_str(store, key, now) {
            Ok(s) => {
                let t = s.as_str();
                let n = t.len();
                proof {
                    assert(t@ == s@);
                }
                Ok(n)
            },
            Err(e) => Err(e),
        }
    }

    /// The characters of the string at `key` from `start` to `end` inclusive, both
    /// wrapped modulo its length; `InvalidRange` when the wrapped start lies after
    /// the wrapped end.
    pub fn get_range(store: &mut Store, key: &str, start: isize, end: isize, now: u64) -> (r:
        Result<String, StoreError>)
        requires
            old(store).wf(),
        ensures
            final(store).wf(),
            final(store).capacity() == old(store).capacity(),
            (final(store).entries(), final(store).order()) == lookup_step(
                old(store).entries(),
                old(store).order(),
                key@,
                now,
            ),
            match str_at(old(store).entries(), key@, now) {
                Ok(s) => match range_of(s, start as int, end as int) {
                    Ok(x) => r is Ok && r->Ok_0@ == x,
                    Err(e) => r == Err::<String, StoreError>(e),
                },
                Err(e) => r == Err::<String, StoreError>(e),
            },
    {
        let val = match StringType::lookup_str(store, key, now) {
            Ok(s) => s,
            Err(e) => {
                return Err(e);
            },
        };
        let len = val.as_str().unicode_len();
        if len == 0 {
            return Ok(val);
        }
        let a = wrap_index(start, len);
        let b = wrap_index(end, len);
        if a > b {
            return Err(StoreError::InvalidRange);
        }
        Ok(String::from_str(val.as_str().substring_char(a, b + 1)))
    }

    /// The string at each key in turn; `None` for a key that is absent, expired or
    /// not a string.
    pub fn mget(store: &mut Store, keys: &Vec<String>, now: u64) -> (r: Vec<Option<String>>)
        requires
            old(store).wf(),
        ensures
            final(store).wf(),
            final(store).capacity() == old(store).capacity(),
            forall|k: Seq<char>| #[trigger]
                live(final(store).entries(), k, now) == live(old(store).entries(), k, now),
            r@.len() == keys@.len(),
            forall|i: int|
                0 <= i < keys@.len() ==> match str_at(old(store).entries(), keys@[i]@, now) {
                    Ok(s) => (#[trigger] r@[i]) is Some && r@[i]->0@ == s,
                    Err(_) => r@[i] is None,
                },
    {
        let mut r: Vec<Option<String>> = Vec::new();
        let mut i: usize = 0;
        while i < keys.len()
            invariant
                store.wf(),
                store.capacity() == old(store).capacity(),
                i <= keys@.len(),
                r@.len() == i,
                forall|k: Seq<char>| #[trigger]
                    live(store.entries(), k, now) == live(old(store).entries(), k, now),
                forall|j: int|
                    0 <= j < i ==> match str_at(old(store).entries(), keys@[j]@, now) {
                        Ok(s) => (#[trigger] r@[j]) is Some && r@[j]->0@ == s,
                        Err(_) => r@[j] is None,
                    },
            decreases keys@.len() - i,
        {
            let v = match StringType::lookup_str(store, keys[i].as_str(), now) {
                Ok(s) => Some(s),
                Err(_) => None,
            };
            r.push(v);
            i = i + 1;
        }
        r
    }

    /// Stores each pair in turn, with no expiry, as separate `set`s.
    pub fn mset(store: &mut Store, pairs: &Vec<(String, String)>, now: u64)
        requires
            old(store).wf(),
        ensures
            final(store).wf(),
            final(store).capacity() == old(store).capacity(),
            (final(store).entries(), final(store).order()) == set_all(
                old(store).entries(),
                old(store).order(),
                old(store).capacity(),
                crate::store::pairs_view(pairs@),
            ),
    {
        let ghost pv = crate::store::pairs_view(pairs@);
        let mut i: usize = 0;
        while i < pairs.len()
            invariant
                store.wf(),
                store.capacity() == old(store).capacity(),
                i <= pairs@.len(),
                pv == crate::store::pairs_view(pairs@),
                (store.entries(), store.order()) == set_all(
                    old(store).entries(),
                    old(store).order(),
                    old(store).capacity(),
                    pv.subrange(0, i as int),
                ),
            decreases pairs@.len() - i,
        {
            proof {
                assert(pv.subrange(0, i + 1).drop_last() =~= pv.subrange(0, i as int));
            }
            StringType::set(store, pairs[i].0.as_str(), pairs[i].1.as_str(), now);
            i = i + 1;
        }
        proof {
            assert(pv.subrange(0, pairs@.len() as int) =~= pv);
        }
    }

    /// The longest common subsequence of the strings at `key1` and `key2`, or its
    /// length in decimal when `mode` is `LEN` (in any case).
    pub fn lcs(store: &mut Store, key1: &str, key2: &str, mode: Option<&str>, now: u64) -> (r:
        Result<String, StoreError>)
        requires
            old(store).wf(),
        ensures
            final(store).wf(),
            final(store).capacity() == old(store).capacity(),
            forall|k: Seq<char>| #[trigger]
                live(final(store).entries(), k, now) == live(old(store).entries(), k, now),
            match str_at(old(store).entries(), key1@, now) {
                Err(e) => r == Err::<String, StoreError>(e),
                Ok(a) => match str_at(old(store).entries(), key2@, now) {
                    Err(e) => r == Err::<String, StoreError>(e),
                    Ok(b) => r is Ok && if mode is Some && is_len_word(mode->0@) {
                        r->Ok_0@ == decimal(lcs_len(a, b) as int)
                    } else {
                        &&& r->Ok_0@.len() == lcs_len(a, b)
                        &&& is_subseq(r->Ok_0@, a)
                        &&& is_subseq(r->Ok_0@, b)
                    },
                },
            },
    {
        let a = match StringType::lookup_str(store, key1, now) {
            Ok(s) => s,
            Err(e) => {
                return Err(e);
            },
        };
        let b = match StringType::lookup_str(store, key2, now) {
            Ok(s) => s,
            Err(e) => {
                return Err(e);
            },
        };
        let (text, n) = find_lcs(a.as_str(), b.as_str());
        if let Some(m) = mode {
            if is_len_mode(m) {
                return Ok(string_from_chars(&format_usize(n)));
            }
        }
        Ok(text)
    }

}

} // verus!
