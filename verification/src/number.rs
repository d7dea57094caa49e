//! Decimal numbers in texts.
use crate::text::chars_of;
use vstd::prelude::*;
#[allow(unused_imports)]
use crate::text::{digit_char, is_digit};

verus! {

// ---------------------------------------------------------------------------------------------
// Reading
// ---------------------------------------------------------------------------------------------
/// The number that a sequence of decimal digits stands for; the empty sequence stands for zero.
pub open spec fn digits_value(s: Seq<char>) -> Option<nat>
    decreases s.len(),
{
    if s.len() == 0 {
        Some(0)
    } else if !is_digit(s.last()) {
        None
    } else {
        match digits_value(s.drop_last()) {
            Some(n) => Some((10 * n + (s.last() as u32 - 48)) as nat),
            None => None,
        }
    }
}

/// The unsigned number that `s` is: digits, with at most one plus sign before them.
pub open spec fn unsigned_value(s: Seq<char>) -> Option<nat> {
    let digits = if s.len() > 0 && s[0] == '+' {
        s.drop_first()
    } else {
        s
    };
    if digits.len() == 0 {
        None
    } else {
        digits_value(digits)
    }
}

/// The signed number that `s` is: digits, with at most one sign before them.
pub open spec fn signed_value(s: Seq<char>) -> Option<int> {
    if s.len() > 0 && s[0] == '-' {
        if s.len() == 1 {
            None
        } else {
            match digits_value(s.drop_first()) {
                Some(n) => Some(-(n as int)),
                None => None,
            }
        }
    } else {
        match unsigned_value(s) {
            Some(n) => Some(n as int),
            None => None,
        }
    }
}

/// `n` where it is one, and at most `limit`.
pub open spec fn at_most(n: Option<nat>, limit: int) -> Option<int> {
    match n {
        Some(v) => if v <= limit {
            Some(v as int)
        } else {
            None
        },
        None => None,
    }
}

/// What `str::parse` makes of `s` for `usize`.
pub open spec fn parsed_usize(s: Seq<char>) -> Option<int> {
    at_most(unsigned_value(s), usize::MAX as int)
}

/// What `str::parse` makes of `s` for `i64`.
pub open spec fn parsed_i64(s: Seq<char>) -> Option<int> {
    match signed_value(s) {
        Some(v) => if i64::MIN <= v <= i64::MAX {
            Some(v)
        } else {
            None
        },
        None => None,
    }
}

proof fn lemma_digits_grow(s: Seq<char>, k: int)
    requires
        0 <= k <= s.len(),
        digits_value(s) is Some,
    ensures
        digits_value(s.take(k)) is Some,
        digits_value(s.take(k))->0 <= digits_value(s)->0,
    decreases s.len() - k,
{
    if k == s.len() {
        assert(s.take(k) =~= s);
    } else {
        lemma_digits_grow(s, k + 1);
        assert(s.take(k + 1).drop_last() =~= s.take(k));
    }
}

/// The value of the digits `chars[from..]`, where they are digits and do not exceed `limit`.
fn parse_digits(chars: &Vec<char>, from: usize, limit: u64) -> (r: Option<u64>)
    requires
        from <= chars@.len(),
    ensures
        match r {
            Some(n) => at_most(digits_value(chars@.skip(from as int)), limit as int) == Some(
                n as int,
            ),
            None => at_most(digits_value(chars@.skip(from as int)), limit as int) is None,
        },
{
    let ghost all = chars@.skip(from as int);
    let mut value: u64 = 0;
    let mut i: usize = from;
    assert(all.take(0) =~= Seq::empty());
    while i < chars.len()
        invariant
            from <= i <= chars@.len(),
            all == chars@.skip(from as int),
            digits_value(all.take(i - from)) == Some(value as nat),
            value <= limit,
        decreases chars.len() - i,
    {
        let c = chars[i];
        assert(all.take(i - from + 1).drop_last() =~= all.take(i - from));
        assert(all.take(i - from + 1).last() == c);
        if c < '0' || c > '9' {
            proof {
                if digits_value(all) is Some {
                    lemma_digits_grow(all, i - from + 1);
                }
            }
            return None;
        }
        let d: u64 = (c as u32 - 48) as u64;
        let next: u128 = 10 * (value as u128) + d as u128;
        if next > limit as u128 {
            proof {
                if digits_value(all) is Some {
                    lemma_digits_grow(all, i - from + 1);
                }
            }
            return None;
        }
        value = next as u64;
        i += 1;
    }
    assert(all.take(i - from) =~= all);
    Some(value)
}

pub fn parse_u64(text: &str, limit: u64) -> (r: Option<u64>)
    ensures
        match r {
            Some(n) => at_most(unsigned_value(text@), limit as int) == Some(n as int),
            None => at_most(unsigned_value(text@), limit as int) is None,
        },
{
    let chars = chars_of(text);
    let from: usize = if chars.len() > 0 && chars[0] == '+' {
        1
    } else {
        0
    };
    assert(chars@.skip(0) =~= chars@);
    if from == chars.len() {
        return None;
    }
    assert(chars@.skip(1) =~= chars@.drop_first());
    parse_digits(&chars, from, limit)
}

pub fn parse_usize(text: &str) -> (r: Option<usize>)
    ensures
        match r {
            Some(n) => parsed_usize(text@) == Some(n as int),
            None => parsed_usize(text@) is None,
        },
{
    match parse_u64(text, usize::MAX as u64) {
        Some(n) => Some(n as usize),
        None => None,
    }
}

pub fn parse_i64(text: &str) -> (r: Option<i64>)
    ensures
        match r {
            Some(n) => parsed_i64(text@) == Some(n as int),
            None => parsed_i64(text@) is None,
        },
{
    let chars = chars_of(text);
    if chars.len() > 0 && chars[0] == '-' {
        if chars.len() == 1 {
            return None;
        }
        assert(chars@.skip(1) =~= chars@.drop_first());
        match parse_digits(&chars, 1, 0x8000_0000_0000_0000) {
            Some(n) => {
                if n == 0x8000_0000_0000_0000 {
                    Some(i64::MIN)
                } else {
                    Some(-(n as i64))
                }
            },
            None => None,
        }
    } else {
        match parse_u64(text, i64::MAX as u64) {
            Some(n) => Some(n as i64),
            None => None,
        }
    }
}

// ---------------------------------------------------------------------------------------------
// Writing
// ---------------------------------------------------------------------------------------------
/// The decimal digits of `n`, without leading zeros.
pub open spec fn decimal(n: nat) -> Seq<char>
    decreases n,
{
    if n < 10 {
        seq![digit_char(n)]
    } else {
        decimal(n / 10).push(digit_char(n % 10))
    }
}

/// `n` in decimal, with a minus sign where it is negative.
pub open spec fn signed_decimal(n: int) -> Seq<char> {
    if n < 0 {
        seq!['-'] + decimal((-n) as nat)
    } else {
        decimal(n as nat)
    }
}

pub fn decimal_u128(n: u128) -> (text: String)
    ensures
        text@ == decimal(n as nat),
    decreases n,
{
    let last: char = (48 + (n % 10) as u8) as char;
    if n < 10 {
        let mut text = String::new();
        text.push(last);
        assert(text@ =~= seq![digit_char(n as nat)]);
        text
    } else {
        let mut text = decimal_u128(n / 10);
        text.push(last);
        text
    }
}

pub fn decimal_text(n: u64) -> (text: String)
    ensures
        text@ == decimal(n as nat),
{
    decimal_u128(n as u128)
}

pub fn decimal_usize(n: usize) -> (text: String)
    ensures
        text@ == decimal(n as nat),
{
    decimal_text(n as u64)
}

pub fn decimal_i64(n: i64) -> (text: String)
    ensures
        text@ == signed_decimal(n as int),
{
    if n >= 0 {
        decimal_text(n as u64)
    } else {
        let magnitude: u64 = (-(n as i128)) as u64;
        proof {
            reveal_strlit("-");
        }
        assert("-"@ =~= seq!['-']);
        crate::text::concat("-", &decimal_text(magnitude))
    }
}

proof fn lemma_decimal_digits(n: nat)
    ensures
        decimal(n).len() > 0,
        digits_value(decimal(n)) == Some(n),
        is_digit(decimal(n)[0]),
    decreases n,
{
    if n < 10 {
        let s = decimal(n);
        assert(s.drop_last() =~= Seq::empty());
        assert(digits_value(s.drop_last()) == Some(0nat));
    } else {
        lemma_decimal_digits(n / 10);
        let s = decimal(n);
        assert(s.drop_last() =~= decimal(n / 10));
        assert(s[0] == decimal(n / 10)[0]);
    }
}

/// Reading a number back from its decimal text gives the number.
pub proof fn lemma_decimal_round_trip(n: int)
    ensures
        signed_value(signed_decimal(n)) == Some(n),
        n >= 0 ==> unsigned_value(signed_decimal(n)) == Some(n as nat),
{
    if n < 0 {
        let m = (-n) as nat;
        lemma_decimal_digits(m);
        assert(signed_decimal(n).drop_first() =~= decimal(m));
    } else {
        lemma_decimal_digits(n as nat);
    }
}

/// A number is written with digits alone, and another number is written otherwise.
pub proof fn lemma_decimal_text(n: nat, m: nat)
    ensures
        decimal(n).len() > 0,
        forall|i: int| 0 <= i < decimal(n).len() ==> is_digit(#[trigger] decimal(n)[i]),
        decimal(n) == decimal(m) ==> n == m,
        n <= usize::MAX ==> parsed_usize(decimal(n)) == Some(n as int),
{
    lemma_decimal_digits(n);
    lemma_decimal_digits(m);
    lemma_all_digits(decimal(n));
}

proof fn lemma_all_digits(s: Seq<char>)
    requires
        digits_value(s) is Some,
    ensures
        forall|i: int| 0 <= i < s.len() ==> is_digit(#[trigger] s[i]),
    decreases s.len(),
{
    if s.len() > 0 {
        lemma_all_digits(s.drop_last());
        assert forall|i: int| 0 <= i < s.len() implies is_digit(#[trigger] s[i]) by {
            if i < s.len() - 1 {
                assert(s.drop_last()[i] == s[i]);
            }
        }
    }
}

/// A plus sign before a number changes nothing, a minus sign makes it none where only numbers from
/// zero on are read, and a sign alone is no number.
pub proof fn lemma_signs(n: nat)
    requires
        n <= i64::MAX,
        n <= usize::MAX,
    ensures
        parsed_usize(seq!['+'] + decimal(n)) == Some(n as int),
        parsed_usize(seq!['-'] + decimal(n)) is None,
        parsed_i64(seq!['+'] + decimal(n)) == Some(n as int),
        parsed_i64(seq!['-'] + decimal(n)) == Some(-(n as int)),
        parsed_usize(seq!['+']) is None,
        parsed_usize(seq![]) is None,
{
    lemma_decimal_digits(n);
    lemma_decimal_text(n, n);
    let plus = seq!['+'] + decimal(n);
    let minus = seq!['-'] + decimal(n);
    assert(plus.drop_first() =~= decimal(n));
    assert(minus.drop_first() =~= decimal(n));
    if digits_value(minus) is Some {
        lemma_all_digits(minus);
        assert(is_digit(minus[0]));
    }
}

} // verus!
