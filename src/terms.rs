use vstd::prelude::*;
use vstd::string::StrSliceExecFns;

use crate::raffle::ONE_NEAR;

verus! {

/// Whether `c` is an ASCII decimal digit.
pub open spec fn is_digit(c: char) -> bool {
    '0' <= c && c <= '9'
}

/// Value of one decimal digit.
pub open spec fn digit_value(c: char) -> nat {
    ((c as u32) - ('0' as u32)) as nat
}

/// Whether every character of `s` is a decimal digit.
pub open spec fn all_digits(s: Seq<char>) -> bool {
    forall|i: int| 0 <= i < s.len() ==> is_digit(#[trigger] s[i])
}

/// Value of a string of decimal digits, most significant first.
pub open spec fn decimal_value(s: Seq<char>) -> nat
    decreases s.len(),
{
    if s.len() == 0 {
        0
    } else {
        decimal_value(s.drop_last()) * 10 + digit_value(s.last())
    }
}

/// The digits of an unsigned number: `s` without one leading `+`.
pub open spec fn unsigned_digits(s: Seq<char>) -> Seq<char> {
    if s.len() > 0 && s[0] == '+' {
        s.subrange(1, s.len() as int)
    } else {
        s
    }
}

/// The unsigned number that `s` denotes, if it is at most `max`: an optional `+`
/// followed by one or more decimal digits.
pub open spec fn unsigned_of(s: Seq<char>, max: nat) -> Option<nat> {
    let d = unsigned_digits(s);
    if d.len() > 0 && all_digits(d) && decimal_value(d) <= max {
        Some(decimal_value(d))
    } else {
        None
    }
}

/// Whether `s` holds no comma.
pub open spec fn comma_free(s: Seq<char>) -> bool {
    forall|j: int| 0 <= j < s.len() ==> #[trigger] s[j] != ','
}

/// Whether position `k` holds the one comma of `s`.
pub open spec fn sole_comma(s: Seq<char>, k: int) -> bool {
    &&& 0 <= k < s.len()
    &&& s[k] == ','
    &&& comma_free(s.subrange(0, k))
    &&& comma_free(s.subrange(k + 1, s.len() as int))
}

/// The two comma-separated fields of `s`, when it has exactly two.
pub open spec fn two_fields(s: Seq<char>) -> Option<(Seq<char>, Seq<char>)> {
    if exists|k: int| sole_comma(s, k) {
        let k = choose|k: int| sole_comma(s, k);
        Some((s.subrange(0, k), s.subrange(k + 1, s.len() as int)))
    } else {
        None
    }
}

/// Terms that a message `"<capacity>,<price>"` states: a `u32` capacity and a
/// `u128` price in whole base units.
pub open spec fn message_terms(s: Seq<char>) -> Option<(u32, u128)> {
    match two_fields(s) {
        Some((a, b)) => match (unsigned_of(a, u32::MAX as nat), unsigned_of(b, u128::MAX as nat)) {
            (Some(c), Some(p)) => Some((c as u32, p as u128)),
            _ => None,
        },
        None => None,
    }
}

/// Terms of a new raffle accepted from a message: capacity at least two, and a
/// positive price whose value in the minor unit fits in `u128`.
pub open spec fn raffle_terms(s: Seq<char>) -> Option<(u32, u128)> {
    match message_terms(s) {
        Some((c, p)) => if c >= 2 && p >= 1 && p as int * ONE_NEAR as int <= u128::MAX as int {
            Some((c, (p as int * ONE_NEAR as int) as u128))
        } else {
            None
        },
        None => None,
    }
}

proof fn lemma_decimal_value_prefix_grows(s: Seq<char>, i: int)
    requires
        0 <= i <= s.len(),
    ensures
        decimal_value(s.subrange(0, i)) <= decimal_value(s),
    decreases s.len() - i,
{
    if i < s.len() {
        lemma_decimal_value_prefix_grows(s, i + 1);
        assert(s.subrange(0, i + 1).drop_last() =~= s.subrange(0, i));
    } else {
        assert(s.subrange(0, i) =~= s);
    }
}

proof fn lemma_sole_comma_unique(s: Seq<char>, k1: int, k2: int)
    requires
        sole_comma(s, k1),
        sole_comma(s, k2),
    ensures
        k1 == k2,
{
    if k1 < k2 {
        assert(s.subrange(0, k2)[k1] == ',');
    } else if k2 < k1 {
        assert(s.subrange(0, k1)[k2] == ',');
    }
}

/// Reads the unsigned number between positions `from` and `to` of `s`, if it is
/// at most `max`.
pub fn parse_unsigned(s: &str, from: usize, to: usize, max: u128) -> (r: Option<u128>)
    requires
        from <= to <= s@.len(),
    ensures
        r == match unsigned_of(s@.subrange(from as int, to as int), max as nat) {
            Some(v) => Some(v as u128),
            None => None::<u128>,
        },
{
    let ghost field = s@.subrange(from as int, to as int);
    let mut start: usize = from;
    if from < to && s.get_char(from) == '+' {
        start = from + 1;
    }
    let ghost digits = s@.subrange(start as int, to as int);
    proof {
        assert(digits =~= unsigned_digits(field));
    }
    if start == to {
        return None;
    }
    let mut acc: u128 = 0;
    let mut i: usize = start;
    while i < to
        invariant
            from <= start <= i <= to <= s@.len(),
            digits == s@.subrange(start as int, to as int),
            digits == unsigned_digits(s@.subrange(from as int, to as int)),
            digits.len() > 0,
            all_digits(digits.subrange(0, i - start)),
            acc as nat == decimal_value(digits.subrange(0, i - start)),
            acc <= max,
        decreases to - i,
    {
        let c = s.get_char(i);
        proof {
            assert(digits[i - start] == c);
        }
        if c < '0' || c > '9' {
            proof {
                assert(!is_digit(digits[i - start]));
                assert(!all_digits(digits));
            }
            return None;
        }
        let d: u128 = (c as u32 - '0' as u32) as u128;
        let ghost next = digits.subrange(0, i + 1 - start);
        proof {
            assert(next.drop_last() =~= digits.subrange(0, i - start));
            assert(next.last() == c);
            assert(decimal_value(next) == acc as nat * 10 + d as nat);
        }
        if d > max || acc > (max - d) / 10 {
            proof {
                assert(acc as nat * 10 + d as nat > max) by (nonlinear_arith)
                    requires
                        d > max || acc > (max - d) / 10,
                ;
                lemma_decimal_value_prefix_grows(digits, i + 1 - start);
            }
            return None;
        }
        proof {
            assert(acc * 10 + d <= max) by (nonlinear_arith)
                requires
                    acc <= (max - d) / 10,
                    d <= max,
            ;
            assert(all_digits(next)) by {
                assert forall|j: int| 0 <= j < next.len() implies is_digit(#[trigger] next[j]) by {
                    if j < next.len() - 1 {
                        assert(next[j] == digits.subrange(0, i - start)[j]);
                    }
                }
            }
        }
        acc = acc * 10 + d;
        i = i + 1;
    }
    proof {
        assert(digits.subrange(0, i - start) =~= digits);
    }
    Some(acc)
}

/// Splits a message `"<capacity>,<price>"` into its two numbers.
pub fn parse_message(msg: &str) -> (r: Option<(u32, u128)>)
    ensures
        r == message_terms(msg@),
{
    let n = msg.unicode_len();
    let mut k: usize = 0;
    while k < n && msg.get_char(k) != ','
        invariant
            k <= n,
            n == msg@.len(),
            comma_free(msg@.subrange(0, k as int)),
        decreases n - k,
    {
        proof {
            let next = msg@.subrange(0, k + 1);
            assert forall|j: int| 0 <= j < next.len() implies #[trigger] next[j] != ',' by {
                if j < k {
                    assert(next[j] == msg@.subrange(0, k as int)[j]);
                }
            }
        }
        k = k + 1;
    }
    if k == n {
        proof {
            assert(msg@.subrange(0, n as int) =~= msg@);
            assert forall|j: int| !sole_comma(msg@, j) by {
                if 0 <= j < msg@.len() {
                    assert(msg@.subrange(0, n as int)[j] == msg@[j]);
                }
            }
        }
        return None;
    }
    let mut m: usize = k + 1;
    while m < n && msg.get_char(m) != ','
        invariant
            k < m <= n,
            n == msg@.len(),
            comma_free(msg@.subrange(k + 1, m as int)),
        decreases n - m,
    {
        proof {
            let next = msg@.subrange(k + 1, m + 1);
            assert forall|j: int| 0 <= j < next.len() implies #[trigger] next[j] != ',' by {
                if j < m - k - 1 {
                    assert(next[j] == msg@.subrange(k + 1, m as int)[j]);
                }
            }
        }
        m = m + 1;
    }
    if m < n {
        proof {
            assert forall|j: int| !sole_comma(msg@, j) by {
                if sole_comma(msg@, j) {
                    if j <= k {
                        if j < k {
                            assert(msg@.subrange(0, k as int)[j] == ',');
                        }
                        assert(msg@.subrange(j + 1, msg@.len() as int)[m - j - 1] == ',');
                    } else {
                        assert(msg@.subrange(0, j)[k as int] == ',');
                    }
                }
            }
        }
        return None;
    }
    proof {
        assert(sole_comma(msg@, k as int));
        let c = choose|c: int| sole_comma(msg@, c);
        lemma_sole_comma_unique(msg@, c, k as int);
    }
    let capacity = parse_unsigned(msg, 0, k, u32::MAX as u128);
    let price = parse_unsigned(msg, k + 1, n, u128::MAX);
    match (capacity, price) {
        (Some(c), Some(p)) => Some((c as u32, p)),
        _ => None,
    }
}

/// Terms of a new raffle from a message: the capacity, and the ticket price in the
/// ledger's minor unit; `None` where the message is malformed, the capacity is
/// under two, or the price is zero or too large to scale.
pub fn read_terms(msg: &str) -> (r: Option<(u32, u128)>)
    ensures
        r == raffle_terms(msg@),
{
    match parse_message(msg) {
        Some((capacity, price)) => {
            if capacity < 2 || price == 0 {
                return None;
            }
            match price.checked_mul(ONE_NEAR) {
                Some(scaled) => Some((capacity, scaled)),
                None => None,
            }
        },
        None => None,
    }
}

} // verus!
