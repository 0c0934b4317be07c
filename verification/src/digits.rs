//! Decimal digits as characters: the spec-level renderings the string
//! contracts are stated over, and the verified building blocks that
//! produce and read them.

use vstd::prelude::*;
use vstd::string::StrSliceExecFns;
use vstd::string::StringExecFns;

verus! {

/// The character of one decimal digit.
pub open spec fn digit_char(d: int) -> char {
    if d == 0 {
        '0'
    } else if d == 1 {
        '1'
    } else if d == 2 {
        '2'
    } else if d == 3 {
        '3'
    } else if d == 4 {
        '4'
    } else if d == 5 {
        '5'
    } else if d == 6 {
        '6'
    } else if d == 7 {
        '7'
    } else if d == 8 {
        '8'
    } else {
        '9'
    }
}

/// Two-digit zero-padded rendering of a value below one hundred.
pub open spec fn dec2(n: int) -> Seq<char> {
    seq![digit_char(n / 10), digit_char(n % 10)]
}

/// Four-digit zero-padded rendering of a value below ten thousand.
pub open spec fn dec4(n: int) -> Seq<char> {
    seq![
        digit_char(n / 1000),
        digit_char((n / 100) % 10),
        digit_char((n / 10) % 10),
        digit_char(n % 10),
    ]
}

/// Unpadded rendering of a value below one hundred: one digit below ten,
/// two otherwise.
pub open spec fn dec1or2(n: int) -> Seq<char> {
    if n < 10 {
        seq![digit_char(n)]
    } else {
        dec2(n)
    }
}

/// A decimal digit character.
pub open spec fn is_digit(c: char) -> bool {
    48 <= c as u32 <= 57
}

/// The value of one decimal digit character.
pub open spec fn digit_val(c: char) -> int {
    c as u32 - 48
}

/// The value of a string of decimal digit characters, most significant
/// first.
pub open spec fn digits_val(s: Seq<char>) -> int
    decreases s.len(),
{
    if s.len() == 0 {
        0
    } else {
        digits_val(s.drop_last()) * 10 + digit_val(s.last())
    }
}

/// Every character of the string is a decimal digit.
pub open spec fn all_digits(s: Seq<char>) -> bool {
    forall|i: int| 0 <= i < s.len() ==> is_digit(#[trigger] s[i])
}

/// A digit's character is a digit character and decodes to the digit.
pub proof fn lemma_digit_char_val(d: int)
    requires
        0 <= d < 10,
    ensures
        is_digit(digit_char(d)),
        digit_val(digit_char(d)) == d,
{
}

/// A two-digit rendering is two digit characters that decode to the
/// value.
pub proof fn lemma_dec2_val(n: int)
    requires
        0 <= n < 100,
    ensures
        dec2(n).len() == 2,
        all_digits(dec2(n)),
        digits_val(dec2(n)) == n,
{
    reveal_with_fuel(digits_val, 3);
    lemma_digit_char_val(n / 10);
    lemma_digit_char_val(n % 10);
    let s = dec2(n);
    assert(s.drop_last() =~= seq![digit_char(n / 10)]);
    assert(seq![digit_char(n / 10)].drop_last() =~= Seq::<char>::empty());
    vstd::arithmetic::div_mod::lemma_fundamental_div_mod(n, 10);
}

/// A four-digit rendering is four digit characters that decode to the
/// value.
pub proof fn lemma_dec4_val(n: int)
    requires
        0 <= n < 10000,
    ensures
        dec4(n).len() == 4,
        all_digits(dec4(n)),
        digits_val(dec4(n)) == n,
{
    reveal_with_fuel(digits_val, 5);
    lemma_digit_char_val(n / 1000);
    lemma_digit_char_val((n / 100) % 10);
    lemma_digit_char_val((n / 10) % 10);
    lemma_digit_char_val(n % 10);
    let s = dec4(n);
    assert(s.drop_last() =~= seq![
        digit_char(n / 1000),
        digit_char((n / 100) % 10),
        digit_char((n / 10) % 10),
    ]);
    assert(s.drop_last().drop_last() =~= seq![digit_char(n / 1000), digit_char((n / 100) % 10)]);
    assert(s.drop_last().drop_last().drop_last() =~= seq![digit_char(n / 1000)]);
    assert(seq![digit_char(n / 1000)].drop_last() =~= Seq::<char>::empty());
    vstd::arithmetic::div_mod::lemma_fundamental_div_mod(n, 10);
    vstd::arithmetic::div_mod::lemma_fundamental_div_mod(n / 10, 10);
    vstd::arithmetic::div_mod::lemma_fundamental_div_mod(n / 100, 10);
    vstd::arithmetic::div_mod::lemma_div_denominator(n, 10, 10);
    vstd::arithmetic::div_mod::lemma_div_denominator(n, 100, 10);
}

/// The one-character string of a decimal digit.
pub(crate) fn digit_str(d: u8) -> (r: &'static str)
    requires
        d < 10,
    ensures
        r@ =~= seq![digit_char(d as int)],
{
    proof {
        reveal_strlit("0");
        reveal_strlit("1");
        reveal_strlit("2");
        reveal_strlit("3");
        reveal_strlit("4");
        reveal_strlit("5");
        reveal_strlit("6");
        reveal_strlit("7");
        reveal_strlit("8");
        reveal_strlit("9");
    }
    match d {
        0 => "0",
        1 => "1",
        2 => "2",
        3 => "3",
        4 => "4",
        5 => "5",
        6 => "6",
        7 => "7",
        8 => "8",
        _ => "9",
    }
}

/// Append the two-digit zero-padded rendering of `n`.
pub(crate) fn push_dec2(s: String, n: u8) -> (r: String)
    requires
        n < 100,
    ensures
        r@ == s@ + dec2(n as int),
{
    let s1 = s.concat(digit_str(n / 10));
    let s2 = s1.concat(digit_str(n % 10));
    proof {
        assert(s2@ =~= s@ + dec2(n as int));
    }
    s2
}

/// Append the four-digit zero-padded rendering of `n`.
pub(crate) fn push_dec4(s: String, n: u16) -> (r: String)
    requires
        n < 10000,
    ensures
        r@ == s@ + dec4(n as int),
{
    let s1 = s.concat(digit_str((n / 1000) as u8));
    let s2 = s1.concat(digit_str(((n / 100) % 10) as u8));
    let s3 = s2.concat(digit_str(((n / 10) % 10) as u8));
    let s4 = s3.concat(digit_str((n % 10) as u8));
    proof {
        assert(s4@ =~= s@ + dec4(n as int));
    }
    s4
}

/// Append the unpadded rendering of `n`.
pub(crate) fn push_dec1or2(s: String, n: u8) -> (r: String)
    requires
        n < 100,
    ensures
        r@ == s@ + dec1or2(n as int),
{
    if n < 10 {
        let s1 = s.concat(digit_str(n));
        proof {
            assert(s1@ =~= s@ + dec1or2(n as int));
        }
        s1
    } else {
        push_dec2(s, n)
    }
}

/// Read the value of a digit-only region `[from, to)` of a string;
/// `None` when a non-digit occurs there or the value exceeds 255.
pub(crate) fn parse_u8_digits(s: &str, from: usize, to: usize) -> (r: Option<u8>)
    requires
        from <= to <= s@.len(),
    ensures
        r matches Some(v) ==> all_digits(s@.subrange(from as int, to as int)) && digits_val(
            s@.subrange(from as int, to as int),
        ) == v,
        r is None ==> !(all_digits(s@.subrange(from as int, to as int)) && digits_val(
            s@.subrange(from as int, to as int),
        ) <= 255),
{
    match parse_digits_max(s, from, to, 255) {
        Some(v) => Some(v as u8),
        None => None,
    }
}

/// Read the value of a digit-only region `[from, to)` of a string;
/// `None` when a non-digit occurs there or the value exceeds `max`.
pub(crate) fn parse_digits_max(s: &str, from: usize, to: usize, max: u32) -> (r: Option<u32>)
    requires
        from <= to <= s@.len(),
        max <= 100_000,
    ensures
        r matches Some(v) ==> all_digits(s@.subrange(from as int, to as int)) && digits_val(
            s@.subrange(from as int, to as int),
        ) == v && v <= max,
        r is None ==> !(all_digits(s@.subrange(from as int, to as int)) && digits_val(
            s@.subrange(from as int, to as int),
        ) <= max),
    decreases to - from,
{
    let ghost whole = s@.subrange(from as int, to as int);
    let mut acc: u32 = 0;
    let mut i = from;
    while i < to
        invariant
            from <= i <= to <= s@.len(),
            whole == s@.subrange(from as int, to as int),
            all_digits(s@.subrange(from as int, i as int)),
            acc == digits_val(s@.subrange(from as int, i as int)),
            acc <= max <= 100_000,
        decreases to - i,
    {
        let c = s.get_char(i);
        let cu = c as u32;
        if cu < 48 || cu > 57 {
            proof {
                assert(whole[i - from] == s@[i as int]);
            }
            return None;
        }
        let d = cu - 48;
        let next = acc * 10 + d;
        proof {
            let pre = s@.subrange(from as int, i as int);
            let cur = s@.subrange(from as int, i + 1);
            assert(cur.drop_last() =~= pre);
            assert(cur.last() == s@[i as int]);
        }
        if next > max {
            proof {
                assert(s@.subrange(from as int, i + 1) =~= whole.take(i + 1 - from));
                if all_digits(whole) {
                    lemma_digits_prefix_monotonic(whole, i + 1 - from);
                }
            }
            return None;
        }
        acc = next;
        i = i + 1;
    }
    proof {
        assert(s@.subrange(from as int, to as int) =~= whole);
    }
    Some(acc)
}

/// A digit string is worth at least any of its prefixes: once a prefix
/// exceeds 255 the whole string does too.
proof fn lemma_digits_prefix_monotonic(s: Seq<char>, k: int)
    requires
        0 <= k <= s.len(),
        all_digits(s),
    ensures
        digits_val(s) >= digits_val(s.take(k)),
        digits_val(s.take(k)) >= 0,
    decreases s.len(),
{
    if s.len() == 0 {
        assert(s.take(k) =~= s);
    } else if k == s.len() {
        assert(s.take(k) =~= s);
        lemma_digits_nonneg(s);
    } else {
        assert(s.drop_last().take(k) =~= s.take(k));
        assert(all_digits(s.drop_last())) by {
            assert(forall|i: int|
                0 <= i < s.drop_last().len() ==> #[trigger] s.drop_last()[i] == s[i]);
        }
        lemma_digits_prefix_monotonic(s.drop_last(), k);
        lemma_digits_nonneg(s.drop_last());
        assert(digit_val(s.last()) >= 0);
    }
}

/// The value of a digit string is non-negative.
proof fn lemma_digits_nonneg(s: Seq<char>)
    requires
        all_digits(s),
    ensures
        digits_val(s) >= 0,
    decreases s.len(),
{
    if s.len() > 0 {
        assert(all_digits(s.drop_last())) by {
            assert(forall|i: int|
                0 <= i < s.drop_last().len() ==> #[trigger] s.drop_last()[i] == s[i]);
        }
        lemma_digits_nonneg(s.drop_last());
    }
}

} // verus!
