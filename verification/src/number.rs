//! Numbers in text.

use vstd::prelude::*;

use crate::text::chars_of;

verus! {

/// The value of a digit of the given radix, at most 36.
pub open spec fn digit_value(c: char, radix: nat) -> Option<nat> {
    let n = if '0' <= c <= '9' {
        Some((c as int - '0' as int) as nat)
    } else if 'a' <= c <= 'z' {
        Some((c as int - 'a' as int + 10) as nat)
    } else if 'A' <= c <= 'Z' {
        Some((c as int - 'A' as int + 10) as nat)
    } else {
        None
    };
    match n {
        Some(d) => if d < radix {
            Some(d)
        } else {
            None
        },
        None => None,
    }
}

/// The number that a sequence of digits spells; none for an empty one.
pub open spec fn digits_value(s: Seq<char>, radix: nat) -> Option<nat>
    decreases s.len(),
{
    if s.len() == 0 {
        None
    } else {
        match digit_value(s.last(), radix) {
            None => None,
            Some(d) => if s.len() == 1 {
                Some(d)
            } else {
                match digits_value(s.drop_last(), radix) {
                    Some(n) => Some(n * radix + d),
                    None => None,
                }
            },
        }
    }
}

/// `s` without a plus sign at its start.
pub open spec fn without_plus(s: Seq<char>) -> Seq<char> {
    if s.len() > 0 && s[0] == '+' {
        s.skip(1)
    } else {
        s
    }
}

/// The number that a text spells, with or without a plus sign, as far as it
/// is at most `max`.
pub open spec fn unsigned_value(s: Seq<char>, radix: nat, max: nat) -> Option<nat> {
    match digits_value(without_plus(s), radix) {
        Some(n) => if n <= max {
            Some(n)
        } else {
            None
        },
        None => None,
    }
}

/// The number that a text spells, with or without a sign, as far as it is
/// an `i64`.
pub open spec fn signed_value(s: Seq<char>) -> Option<int> {
    if s.len() > 0 && s[0] == '-' {
        match digits_value(s.skip(1), 10) {
            Some(n) => if n <= i64::MAX + 1 {
                Some(-(n as int))
            } else {
                None
            },
            None => None,
        }
    } else {
        match unsigned_value(s, 10, i64::MAX as nat) {
            Some(n) => Some(n as int),
            None => None,
        }
    }
}

fn digit_number(c: char, radix: u64) -> (r: Option<u64>)
    requires
        radix <= 36,
    ensures
        match r {
            Some(d) => digit_value(c, radix as nat) == Some(d as nat) && d < radix,
            None => digit_value(c, radix as nat) is None,
        },
{
    let d: u64 = if '0' <= c && c <= '9' {
        (c as u32 - '0' as u32) as u64
    } else if 'a' <= c && c <= 'z' {
        (c as u32 - 'a' as u32 + 10) as u64
    } else if 'A' <= c && c <= 'Z' {
        (c as u32 - 'A' as u32 + 10) as u64
    } else {
        return None;
    };
    if d < radix {
        Some(d)
    } else {
        None
    }
}

proof fn lemma_digits_prefix(s: Seq<char>, k: int, radix: nat)
    requires
        0 < k <= s.len(),
        radix >= 1,
    ensures
        digits_value(s.take(k), radix) is None ==> digits_value(s, radix) is None,
        digits_value(s, radix) is Some && digits_value(s.take(k), radix) is Some ==> digits_value(s.take(k), radix)->0
            <= digits_value(s, radix)->0,
    decreases s.len() - k,
{
    if k < s.len() {
        lemma_digits_prefix(s, k + 1, radix);
        let longer = s.take(k + 1);
        assert(longer.drop_last() =~= s.take(k));
        if digits_value(longer, radix) is Some && digits_value(s.take(k), radix) is Some {
            let n = digits_value(s.take(k), radix)->0;
            assert(n <= n * radix) by (nonlinear_arith)
                requires
                    radix >= 1,
                    n >= 0,
            ;
        }
    } else {
        assert(s.take(k) =~= s);
    }
}

/// Reads a number without a sign, up to `max`.
pub fn parse_digits(chars: &[char], from: usize, radix: u64, max: u64) -> (r: Option<u64>)
    requires
        from <= chars@.len(),
        2 <= radix <= 36,
    ensures
        match r {
            Some(n) => digits_value(chars@.skip(from as int), radix as nat) == Some(n as nat) && n <= max,
            None => match digits_value(chars@.skip(from as int), radix as nat) {
                Some(n) => n > max,
                None => true,
            },
        },
{
    let ghost s = chars@.skip(from as int);
    if from == chars.len() {
        return None;
    }
    let mut n: u64 = 0;
    let mut i: usize = from;
    while i < chars.len()
        invariant
            from <= i <= chars@.len(),
            from < chars@.len(),
            2 <= radix <= 36,
            s == chars@.skip(from as int),
            i > from ==> digits_value(s.take(i - from), radix as nat) == Some(n as nat),
            i == from ==> n == 0,
            n <= max,
        decreases chars@.len() - i,
    {
        let ghost k = i - from;
        assert(s.take(k + 1).drop_last() =~= s.take(k));
        assert(s[k] == chars@[i as int]);
        proof {
            lemma_digits_prefix(s, k + 1, radix as nat);
        }
        match digit_number(chars[i], radix) {
            None => {
                return None;
            },
            Some(d) => {
                assert(n as int * radix as int <= u64::MAX as int * 36) by (nonlinear_arith)
                    requires
                        0 <= n <= u64::MAX,
                        0 <= radix <= 36,
                ;
                let wide: u128 = n as u128 * radix as u128 + d as u128;
                assert(i == from ==> wide == d) by (nonlinear_arith)
                    requires
                        i == from ==> n == 0,
                        wide == n as int * radix as int + d as int,
                ;
                if wide > max as u128 {
                    return None;
                }
                n = wide as u64;
            },
        }
        i += 1;
    }
    assert(s.take(s.len() as int) =~= s);
    Some(n)
}

fn sign_len(chars: &Vec<char>) -> (r: usize)
    ensures
        r <= chars@.len(),
        chars@.skip(r as int) == without_plus(chars@),
{
    if chars.len() > 0 && chars[0] == '+' {
        1
    } else {
        assert(chars@.skip(0) =~= chars@);
        0
    }
}

/// Reads an unsigned number, up to `max`.
pub fn parse_unsigned(text: &str, radix: u64, max: u64) -> (r: Option<u64>)
    requires
        2 <= radix <= 36,
    ensures
        match r {
            Some(n) => unsigned_value(text@, radix as nat, max as nat) == Some(n as nat),
            None => unsigned_value(text@, radix as nat, max as nat) is None,
        },
{
    let chars = chars_of(text);
    let from = sign_len(&chars);
    parse_digits(chars.as_slice(), from, radix, max)
}

/// Reads an `i64`.
pub fn parse_signed(text: &str) -> (r: Option<i64>)
    ensures
        match r {
            Some(n) => signed_value(text@) == Some(n as int),
            None => signed_value(text@) is None,
        },
{
    let chars = chars_of(text);
    if chars.len() > 0 && chars[0] == '-' {
        match parse_digits(chars.as_slice(), 1, 10, 9223372036854775808) {
            Some(n) => if n == 9223372036854775808 {
                Some(i64::MIN)
            } else {
                Some(-(n as i64))
            },
            None => None,
        }
    } else {
        let from = sign_len(&chars);
        match parse_digits(chars.as_slice(), from, 10, 9223372036854775807) {
            Some(n) => Some(n as i64),
            None => None,
        }
    }
}

/// Whether digits at the start of a text spell a number above `max`.
pub open spec fn starts_too_large(s: Seq<char>, max: nat) -> bool {
    exists|k: int| 0 < k <= s.len() && is_above(#[trigger] s.take(k), max)
}

pub open spec fn is_above(s: Seq<char>, max: nat) -> bool {
    digits_value(s, 10) is Some && digits_value(s, 10)->0 > max
}

/// Why a text is no number up to `max`.
pub open spec fn number_error(s: Seq<char>, max: nat) -> Seq<char> {
    if s.len() == 0 {
        "cannot parse integer from empty string"@
    } else if starts_too_large(without_plus(s), max) {
        "number too large to fit in target type"@
    } else {
        "invalid digit found in string"@
    }
}

proof fn lemma_prefix_of_prefix(s: Seq<char>, k: int, m: int)
    requires
        0 < k <= m <= s.len(),
        digits_value(s.take(m), 10) is Some,
    ensures
        digits_value(s.take(k), 10) is Some,
        digits_value(s.take(k), 10)->0 <= digits_value(s.take(m), 10)->0,
{
    lemma_digits_prefix(s.take(m), k, 10);
    assert(s.take(m).take(k) =~= s.take(k));
}

fn leads_too_large(chars: &[char], from: usize, max: u64) -> (r: bool)
    requires
        from <= chars@.len(),
    ensures
        r == starts_too_large(chars@.skip(from as int), max as nat),
{
    let ghost s = chars@.skip(from as int);
    let mut n: u64 = 0;
    let mut i: usize = from;
    while i < chars.len()
        invariant
            from <= i <= chars@.len(),
            s == chars@.skip(from as int),
            i > from ==> digits_value(s.take(i - from), 10) == Some(n as nat),
            i == from ==> n == 0,
            n <= max,
        decreases chars@.len() - i,
    {
        let ghost k = i - from;
        assert(s.take(k + 1).drop_last() =~= s.take(k));
        assert(s[k] == chars@[i as int]);
        match digit_number(chars[i], 10) {
            None => {
                proof {
                    assert(digits_value(s.take(k + 1), 10) is None);
                    assert forall|j: int| 0 < j <= s.len() implies !is_above(#[trigger] s.take(j), max as nat) by {
                        if is_above(s.take(j), max as nat) {
                            if j > k {
                                lemma_prefix_of_prefix(s, k + 1, j);
                            } else {
                                lemma_prefix_of_prefix(s, j, k);
                            }
                        }
                    }
                }
                return false;
            },
            Some(d) => {
                let wide: u128 = n as u128 * 10 + d as u128;
                if wide > max as u128 {
                    assert(is_above(s.take(k + 1), max as nat));
                    return true;
                }
                n = wide as u64;
            },
        }
        i += 1;
    }
    proof {
        assert forall|j: int| 0 < j <= s.len() implies !is_above(#[trigger] s.take(j), max as nat) by {
            if is_above(s.take(j), max as nat) {
                lemma_prefix_of_prefix(s, j, s.len() as int);
            }
        }
    }
    false
}

/// Reads a `usize`, or says why the text is none.
pub fn parse_usize(text: &str) -> (r: Result<usize, String>)
    ensures
        match r {
            Ok(n) => unsigned_value(text@, 10, usize::MAX as nat) == Some(n as nat),
            Err(error) => unsigned_value(text@, 10, usize::MAX as nat) is None && error@ == number_error(
                text@,
                usize::MAX as nat,
            ),
        },
{
    match parse_unsigned(text, 10, usize::MAX as u64) {
        Some(n) => Ok(n as usize),
        None => {
            let chars = chars_of(text);
            if chars.len() == 0 {
                Err("cannot parse integer from empty string".to_owned())
            } else {
                let from = sign_len(&chars);
                if leads_too_large(chars.as_slice(), from, usize::MAX as u64) {
                    Err("number too large to fit in target type".to_owned())
                } else {
                    Err("invalid digit found in string".to_owned())
                }
            }
        },
    }
}

} // verus!
