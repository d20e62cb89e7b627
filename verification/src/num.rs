//! Verified decimal rendering and parsing of integers.

use vstd::prelude::*;

verus! {

/// The decimal digit character for `d` (0 to 9).
pub open spec fn dec_digit_char(d: int) -> char
    recommends
        0 <= d <= 9,
{
    ((48 + d) as u8) as char
}

/// The decimal text of a non-negative integer, without sign or padding.
pub open spec fn dec_text(n: nat) -> Seq<char>
    decreases n,
{
    if n < 10 {
        seq![dec_digit_char(n as int)]
    } else {
        dec_text(n / 10).push(dec_digit_char((n % 10) as int))
    }
}

/// The decimal text of an integer: a leading `-` for negative values.
pub open spec fn int_text(n: int) -> Seq<char> {
    if n < 0 {
        seq!['-'] + dec_text((-n) as nat)
    } else {
        dec_text(n as nat)
    }
}

/// The decimal rendering of `n`.
pub fn u128_to_string(n: u128) -> (r: String)
    ensures
        r@ == dec_text(n as nat),
    decreases n,
{
    if n < 10 {
        let d: u8 = 48 + (n as u8);
        let mut s = String::new();
        crate::text::push_char(&mut s, d as char);
        assert(s@ =~= dec_text(n as nat));
        s
    } else {
        let mut s = u128_to_string(n / 10);
        let d: u8 = 48 + ((n % 10) as u8);
        crate::text::push_char(&mut s, d as char);
        s
    }
}

/// The decimal rendering of `n`.
pub fn u64_to_string(n: u64) -> (r: String)
    ensures
        r@ == dec_text(n as nat),
{
    u128_to_string(n as u128)
}

/// The decimal rendering of `n`, with a leading `-` when negative.
pub fn i64_to_string(n: i64) -> (r: String)
    ensures
        r@ == int_text(n as int),
{
    if n >= 0 {
        u128_to_string(n as u128)
    } else {
        let mag: u128 = if n == i64::MIN {
            9223372036854775808
        } else {
            (-n) as u128
        };
        assert(mag == -(n as int));
        let digits = u128_to_string(mag);
        let mut s = String::new();
        crate::text::push_char(&mut s, '-');
        let r = s.concat(digits.as_str());
        assert(r@ =~= int_text(n as int));
        r
    }
}

/// Whether `c` is a decimal digit.
pub open spec fn is_dec_digit(c: char) -> bool {
    '0' <= c && c <= '9'
}

/// The value of the digit `c`.
pub open spec fn digit_val(c: char) -> int {
    c as int - 48
}

/// Whether every character of `s` is a decimal digit.
pub open spec fn all_digits(s: Seq<char>) -> bool {
    forall|i: int| 0 <= i < s.len() ==> is_dec_digit(s[i])
}

/// The non-negative value of a digit string, most significant first.
pub open spec fn digits_val(s: Seq<char>) -> int
    decreases s.len(),
{
    if s.len() == 0 {
        0
    } else {
        digits_val(s.drop_last()) * 10 + digit_val(s.last())
    }
}

/// The digit part of an integer literal: everything after one optional
/// leading `+` or `-` sign.
pub open spec fn int_body(s: Seq<char>) -> Seq<char> {
    if s.len() > 0 && (s[0] == '-' || s[0] == '+') {
        s.drop_first()
    } else {
        s
    }
}

/// Whether an integer literal carries a leading `-`.
pub open spec fn int_neg(s: Seq<char>) -> bool {
    s.len() > 0 && s[0] == '-'
}

/// The signed 64-bit integer denoted by `s`, if any: an optional `+` or `-`
/// sign, then one or more decimal digits, and a value within the `i64`
/// range. This is the integer grammar the delimited parser accepts.
pub open spec fn parsed_i64(s: Seq<char>) -> Option<i64> {
    let neg = int_neg(s);
    let body = int_body(s);
    if body.len() == 0 || !all_digits(body) {
        None
    } else if neg {
        if digits_val(body) <= 9223372036854775808 {
            Some((-digits_val(body)) as i64)
        } else {
            None
        }
    } else {
        if digits_val(body) <= i64::MAX {
            Some(digits_val(body) as i64)
        } else {
            None
        }
    }
}

pub proof fn lemma_digits_val_nonneg(s: Seq<char>)
    requires
        all_digits(s),
    ensures
        digits_val(s) >= 0,
    decreases s.len(),
{
    if s.len() > 0 {
        assert(all_digits(s.drop_last()));
        lemma_digits_val_nonneg(s.drop_last());
    }
}

/// Extending a digit string never lowers its value.
pub proof fn lemma_digits_val_prefix(s: Seq<char>, k: int)
    requires
        all_digits(s),
        0 <= k <= s.len(),
    ensures
        digits_val(s.subrange(0, k)) <= digits_val(s),
    decreases s.len() - k,
{
    if k < s.len() {
        let t = s.subrange(0, k + 1);
        assert(all_digits(t));
        assert(t.drop_last() =~= s.subrange(0, k));
        lemma_digits_val_nonneg(s.subrange(0, k));
        assert(digits_val(t) == digits_val(s.subrange(0, k)) * 10 + digit_val(t.last()));
        assert(digit_val(t.last()) >= 0);
        lemma_digits_val_prefix(s, k + 1);
    } else {
        assert(s.subrange(0, k) =~= s);
    }
}

/// The signed 64-bit integer denoted by the characters of `v`, per
/// `parsed_i64`.
pub fn parse_i64_chars(v: &Vec<char>) -> (r: Option<i64>)
    ensures
        r == parsed_i64(v@),
{
    let n = v.len();
    let (neg, start): (bool, usize) = if n > 0 && v[0] == '-' {
        (true, 1)
    } else if n > 0 && v[0] == '+' {
        (false, 1)
    } else {
        (false, 0)
    };
    let ghost body = int_body(v@);
    proof {
        assert(neg == int_neg(v@));
        assert(body.len() == n - start);
        assert(forall|j: int| 0 <= j < body.len() ==> body[j] == v@[j + start]);
    }
    if n == start {
        assert(body.len() == 0);
        return None;
    }
    // The running value is capped just above 2^63: any digit string whose
    // value passes the cap can never come back under it.
    let cap: u128 = 9223372036854775808;
    let mut acc: u128 = 0;
    let mut i: usize = start;
    while i < n
        invariant
            n == v@.len(),
            start <= i <= n,
            start < n,
            start == 0 || start == 1,
            cap == 9223372036854775808,
            body == int_body(v@),
            neg == int_neg(v@),
            body.len() == n - start,
            forall|j: int| 0 <= j < body.len() ==> body[j] == v@[j + start],
            all_digits(body.subrange(0, i - start)),
            acc <= cap + 1,
            digits_val(body.subrange(0, i - start)) <= cap ==> acc == digits_val(
                body.subrange(0, i - start),
            ),
            digits_val(body.subrange(0, i - start)) > cap ==> acc == cap + 1,
        decreases n - i,
    {
        let c = v[i];
        if c < '0' || c > '9' {
            assert(body[i - start] == v@[i as int]);
            assert(!is_dec_digit(body[i - start]));
            assert(!all_digits(body));
            assert(parsed_i64(v@) is None);
            return None;
        }
        let d: u128 = (c as u8 - 48) as u128;
        proof {
            let pre = body.subrange(0, i - start);
            let ext = body.subrange(0, i + 1 - start);
            assert(ext.drop_last() =~= pre);
            assert(ext.last() == body[i - start]);
            assert(body[i - start] == v@[i as int]);
            assert(digits_val(ext) == digits_val(pre) * 10 + digit_val(body[i - start]));
            assert(0 <= digit_val(body[i - start]) <= 9);
            assert(digit_val(body[i - start]) == d);
            lemma_digits_val_nonneg(pre);
        }
        if acc > cap / 10 || (acc == cap / 10 && d > cap % 10) {
            proof {
                let pre = body.subrange(0, i - start);
                let ext = body.subrange(0, i + 1 - start);
                if digits_val(pre) <= cap {
                    assert(acc == digits_val(pre));
                    assert(digits_val(ext) == acc * 10 + d);
                    assert(digits_val(ext) > cap);
                } else {
                    assert(digits_val(ext) == digits_val(pre) * 10 + digit_val(
                        body[i - start],
                    ));
                    assert(digits_val(pre) * 10 > cap);
                    assert(digits_val(ext) > cap);
                }
            }
            acc = cap + 1;
        } else {
            acc = acc * 10 + d;
        }
        i += 1;
    }
    assert(body.subrange(0, (n - start) as int) =~= body);
    assert(all_digits(body));
    assert(body.len() > 0);
    if neg {
        if acc <= cap {
            assert(digits_val(body) == acc) by {
                if digits_val(body) > cap {
                    assert(acc == cap + 1);
                }
            }
            let r: i64 = if acc == cap {
                i64::MIN
            } else {
                -((acc as i64))
            };
            Some(r)
        } else {
            proof {
                lemma_digits_val_nonneg(body);
                if digits_val(body) <= cap {
                    assert(acc == digits_val(body));
                }
            }
            None
        }
    } else {
        if acc <= cap - 1 {
            assert(digits_val(body) == acc) by {
                if digits_val(body) > cap {
                    assert(acc == cap + 1);
                }
            }
            Some(acc as i64)
        } else {
            proof {
                lemma_digits_val_nonneg(body);
                if digits_val(body) <= cap {
                    assert(acc == digits_val(body));
                }
            }
            None
        }
    }
}

/// The decimal text of `n` is all digits, begins with no sign, and reads
/// back as `n`.
pub proof fn lemma_dec_text_props(n: nat)
    ensures
        dec_text(n).len() >= 1,
        all_digits(dec_text(n)),
        is_dec_digit(dec_text(n)[0]),
        digits_val(dec_text(n)) == n,
    decreases n,
{
    if n < 10 {
        let s = dec_text(n);
        assert(s == seq![dec_digit_char(n as int)]);
        assert(s.drop_last() =~= Seq::<char>::empty());
        assert(digits_val(s) == digits_val(s.drop_last()) * 10 + digit_val(s.last()));
        assert(digit_val(dec_digit_char(n as int)) == n);
        assert(is_dec_digit(dec_digit_char(n as int)));
        assert forall|i: int| 0 <= i < s.len() implies is_dec_digit(s[i]) by {}
    } else {
        lemma_dec_text_props(n / 10);
        let t = dec_text(n / 10);
        let s = dec_text(n);
        assert(s == t.push(dec_digit_char((n % 10) as int)));
        assert(s.drop_last() =~= t);
        assert(s.last() == dec_digit_char((n % 10) as int));
        assert(digit_val(dec_digit_char((n % 10) as int)) == n % 10);
        assert(digits_val(s) == digits_val(t) * 10 + n % 10);
        assert(digits_val(s) == n);
        assert forall|i: int| 0 <= i < s.len() implies is_dec_digit(s[i]) by {
            if i < t.len() {
                assert(s[i] == t[i]);
            } else {
                assert(s[i] == dec_digit_char((n % 10) as int));
            }
        }
        assert(s[0] == t[0]);
    }
}

/// Rendering an integer and reading it back yields the integer.
pub proof fn lemma_int_text_round_trip(i: i64)
    ensures
        parsed_i64(int_text(i as int)) == Some(i),
{
    if i >= 0 {
        let s = int_text(i as int);
        assert(s == dec_text(i as nat));
        lemma_dec_text_props(i as nat);
        assert(s[0] != '-' && s[0] != '+') by {
            assert(is_dec_digit(s[0]));
        }
        assert(int_body(s) == s);
        assert(!int_neg(s));
        assert(digits_val(s) == i);
    } else {
        let m = (-(i as int)) as nat;
        let d = dec_text(m);
        let s = int_text(i as int);
        assert(s == seq!['-'] + d);
        lemma_dec_text_props(m);
        assert(s[0] == '-');
        assert(int_neg(s));
        assert(s.drop_first() =~= d);
        assert(int_body(s) == d);
        assert(all_digits(d));
        assert(digits_val(d) == m);
        assert(m <= 9223372036854775808);
    }
}

} // verus!
