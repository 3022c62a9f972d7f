use vstd::prelude::*;
use vstd::string::StrSliceExecFns;

verus! {

pub open spec fn is_digit(c: char) -> bool {
    '0' <= c && c <= '9'
}

pub open spec fn digit_val(c: char) -> nat {
    if is_digit(c) {
        (c as nat - '0' as nat) as nat
    } else {
        0
    }
}

pub open spec fn all_digits(s: Seq<char>) -> bool {
    forall|i: int| 0 <= i < s.len() ==> is_digit(#[trigger] s[i])
}

/// The value of a run of decimal digits.
pub open spec fn digits_val(s: Seq<char>) -> nat
    decreases s.len(),
{
    if s.len() == 0 {
        0
    } else {
        digits_val(s.drop_last()) * 10 + digit_val(s.last())
    }
}

/// The integer a string spells: an optional sign and at least one digit.
pub open spec fn int_of(s: Seq<char>) -> Option<int> {
    if s.len() > 1 && s[0] == '-' && all_digits(s.drop_first()) {
        Some(-digits_val(s.drop_first()))
    } else if s.len() > 1 && s[0] == '+' && all_digits(s.drop_first()) {
        Some(digits_val(s.drop_first()) as int)
    } else if s.len() > 0 && all_digits(s) {
        Some(digits_val(s) as int)
    } else {
        None
    }
}

/// The 64-bit integer a string spells, if it spells one in range.
pub open spec fn i64_of(s: Seq<char>) -> Option<i64> {
    match int_of(s) {
        Some(v) => if i64::MIN <= v <= i64::MAX {
            Some(v as i64)
        } else {
            None
        },
        None => None,
    }
}

pub open spec fn digit_char(d: nat) -> char {
    (d + '0' as nat) as char
}

/// The decimal digits of `n`, without leading zeros.
pub open spec fn nat_digits(n: nat) -> Seq<char>
    decreases n,
{
    if n < 10 {
        seq![digit_char(n)]
    } else {
        nat_digits(n / 10).push(digit_char(n % 10))
    }
}

/// The decimal text of `n`, with a leading minus sign when negative.
pub open spec fn decimal(n: int) -> Seq<char> {
    if n < 0 {
        seq!['-'] + nat_digits((-n) as nat)
    } else {
        nat_digits(n as nat)
    }
}

proof fn lemma_digit_char(d: nat)
    requires
        d < 10,
    ensures
        is_digit(digit_char(d)),
        digit_val(digit_char(d)) == d,
{
    assert(digit_char(d) as nat == d + 48);
}

proof fn lemma_nat_digits_parse(n: nat)
    ensures
        all_digits(nat_digits(n)),
        digits_val(nat_digits(n)) == n,
        nat_digits(n).len() > 0,
        is_digit(nat_digits(n)[0]),
    decreases n,
{
    lemma_digit_char(n % 10);
    if n < 10 {
        assert(nat_digits(n).drop_last() =~= Seq::<char>::empty());
        assert(n % 10 == n);
        assert(digits_val(nat_digits(n)) == digits_val(Seq::<char>::empty()) * 10 + digit_val(nat_digits(n).last()));
    }
    if n >= 10 {
        lemma_nat_digits_parse(n / 10);
        let p = nat_digits(n / 10);
        let d = nat_digits(n);
        assert(d.drop_last() =~= p);
        assert(d[0] == p[0]);
        assert(d.last() == digit_char(n % 10));
        assert(digits_val(d) == digits_val(p) * 10 + digit_val(d.last()));
        assert(n == (n / 10) * 10 + n % 10);
        assert forall|i: int| 0 <= i < d.len() implies is_digit(#[trigger] d[i]) by {
            if i < p.len() {
                assert(d[i] == p[i]);
            }
        }
    }
}

/// The decimal text of a 64-bit integer reads back as that integer, so a stored
/// count can be incremented again.
pub proof fn law_decimal_round_trip(n: i64)
    ensures
        i64_of(decimal(n as int)) == Some(n),
{
    if n < 0 {
        let m = (-n) as nat;
        lemma_nat_digits_parse(m);
        let s = decimal(n as int);
        assert(s.drop_first() =~= nat_digits(m));
    } else {
        lemma_nat_digits_parse(n as nat);
    }
}

proof fn lemma_digits_mono(s: Seq<char>, j: int, k: int)
    requires
        0 <= j <= k <= s.len(),
    ensures
        digits_val(s.subrange(0, j)) <= digits_val(s.subrange(0, k)),
    decreases k - j,
{
    if j < k {
        lemma_digits_mono(s, j, k - 1);
        assert(s.subrange(0, k).drop_last() =~= s.subrange(0, k - 1));
    }
}

/// Reads the digits of `s` from `from` on; `None` when one is not a digit or the
/// value exceeds 2^63.
fn read_digits(s: &str, from: usize, n: usize) -> (r: Option<u64>)
    requires
        n == s@.len(),
        from < n,
    ensures
        all_digits(s@.subrange(from as int, n as int)) && digits_val(s@.subrange(from as int, n as int))
            <= 0x8000_0000_0000_0000 ==> r == Some(digits_val(s@.subrange(from as int, n as int)) as u64),
        !(all_digits(s@.subrange(from as int, n as int)) && digits_val(s@.subrange(from as int, n as int))
            <= 0x8000_0000_0000_0000) ==> r is None,
{
    let ghost d = s@.subrange(from as int, n as int);
    let mut acc: u128 = 0;
    let mut i: usize = from;
    while i < n
        invariant
            from <= i <= n,
            n == s@.len(),
            d == s@.subrange(from as int, n as int),
            all_digits(d.subrange(0, i - from)),
            acc == digits_val(d.subrange(0, i - from)),
            acc <= 0x8000_0000_0000_0000,
        decreases n - i,
    {
        let c = s.get_char(i);
        if c < '0' || c > '9' {
            assert(!all_digits(d)) by {
                assert(d[i - from] == c);
            }
            return None;
        }
        proof {
            assert(d.subrange(0, i + 1 - from).drop_last() =~= d.subrange(0, i - from));
        }
        acc = acc * 10 + (c as u128 - '0' as u128);
        i = i + 1;
        proof {
            assert forall|j: int| 0 <= j < (i - from) implies is_digit(
                #[trigger] d.subrange(0, i - from)[j],
            ) by {
                if j < i - 1 - from {
                    assert(d.subrange(0, i - from)[j] == d.subrange(0, i - 1 - from)[j]);
                }
            }
        }
        if acc > 0x8000_0000_0000_0000 {
            proof {
                lemma_digits_mono(d, i - from, d.len() as int);
                assert(d.subrange(0, d.len() as int) =~= d);
            }
            return None;
        }
    }
    proof {
        assert(d.subrange(0, n - from) =~= d);
    }
    Some(acc as u64)
}

/// Parses a signed 64-bit integer: an optional `+` or `-` and decimal digits.
pub fn parse_i64(s: &str) -> (r: Option<i64>)
    ensures
        r == i64_of(s@),
{
    let n = s.unicode_len();
    if n == 0 {
        return None;
    }
    let c = s.get_char(0);
    if c == '-' || c == '+' {
        if n == 1 {
            return None;
        }
        proof {
            assert(s@.subrange(1, n as int) =~= s@.drop_first());
        }
        match read_digits(s, 1, n) {
            Some(m) => {
                if c == '-' {
                    if m == 0x8000_0000_0000_0000 {
                        Some(i64::MIN)
                    } else {
                        Some(0 - (m as i64))
                    }
                } else if m == 0x8000_0000_0000_0000 {
                    None
                } else {
                    Some(m as i64)
                }
            },
            None => None,
        }
    } else {
        proof {
            assert(s@.subrange(0, n as int) =~= s@);
        }
        match read_digits(s, 0, n) {
            Some(m) => {
                if m == 0x8000_0000_0000_0000 {
                    None
                } else {
                    Some(m as i64)
                }
            },
            None => None,
        }
    }
}

fn push_digits(n: u64, out: &mut Vec<char>)
    ensures
        final(out)@ == old(out)@ + nat_digits(n as nat),
    decreases n,
{
    if n >= 10 {
        push_digits(n / 10, out);
    }
    let d: u64 = n % 10;
    let c = ((d as u8) + 48u8) as char;
    proof {
        assert(c == digit_char((n % 10) as nat));
    }
    out.push(c);
    proof {
        assert(final(out)@ =~= old(out)@ + nat_digits(n as nat));
    }
}

/// The decimal text of a count.
pub fn format_usize(n: usize) -> (r: Vec<char>)
    ensures
        r@ == decimal(n as int),
{
    let mut out: Vec<char> = Vec::new();
    push_digits(n as u64, &mut out);
    proof {
        assert(out@ =~= decimal(n as int));
    }
    out
}

/// The decimal text of `n`.
pub fn format_i64(n: i64) -> (r: Vec<char>)
    ensures
        r@ == decimal(n as int),
{
    let mut out: Vec<char> = Vec::new();
    if n < 0 {
        out.push('-');
        let m: u64 = if n == i64::MIN {
            0x8000_0000_0000_0000
        } else {
            (0 - n) as u64
        };
        push_digits(m, &mut out);
        proof {
            assert(out@ =~= decimal(n as int));
        }
    } else {
        push_digits(n as u64, &mut out);
        proof {
            assert(out@ =~= decimal(n as int));
        }
    }
    out
}

} // verus!
