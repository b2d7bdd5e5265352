//! Parsing of the plain-text inputs recovery depends on: the region
//! position encoded in a file name of the shape `r.<x>.<z>.<extension>`,
//! signed decimal integers, and the duplicate-behaviour keywords.

use vstd::prelude::*;
use vstd::slice::slice_subrange;

use crate::entry::DuplicateBehaviour;

verus! {

/// Whether `b` is an ASCII decimal digit.
pub open spec fn is_digit(b: u8) -> bool {
    48 <= b <= 57
}

/// The numeric value of a digit byte.
pub open spec fn digit_val(b: u8) -> int {
    b as int - 48
}

/// The value of a digit string read in base 10.
pub open spec fn decimal_val(s: Seq<u8>) -> int
    decreases s.len(),
{
    if s.len() == 0 {
        0
    } else {
        decimal_val(s.drop_last()) * 10 + digit_val(s.last())
    }
}

/// Whether `s` is a non-empty string of decimal digits.
pub open spec fn all_digits(s: Seq<u8>) -> bool {
    s.len() > 0 && forall|i: int| 0 <= i < s.len() ==> is_digit(#[trigger] s[i])
}

/// How many leading sign bytes (`+` or `-`) the string carries: 0 or 1.
pub open spec fn sign_len(s: Seq<u8>) -> int {
    if s.len() > 0 && (s[0] == 43 || s[0] == 45) {
        1int
    } else {
        0int
    }
}

/// The digits of the string, after any sign byte.
pub open spec fn magnitude_of(s: Seq<u8>) -> Seq<u8> {
    s.subrange(sign_len(s), s.len() as int)
}

/// Whether the string carries a leading `-`.
pub open spec fn is_negative(s: Seq<u8>) -> bool {
    s.len() > 0 && s[0] == 45
}

/// The signed decimal integer a byte string denotes: an optional `+` or
/// `-` sign followed by one or more digits, rejected when the value falls
/// outside the 32-bit signed range.
pub open spec fn parsed_i32(s: Seq<u8>) -> Option<i32> {
    if !all_digits(magnitude_of(s)) {
        None
    } else {
        let v = if is_negative(s) {
            -decimal_val(magnitude_of(s))
        } else {
            decimal_val(magnitude_of(s))
        };
        if i32::MIN <= v <= i32::MAX {
            Some(v as i32)
        } else {
            None
        }
    }
}

/// A digit string's value is non-negative.
proof fn lemma_decimal_nonneg(s: Seq<u8>)
    requires
        forall|i: int| 0 <= i < s.len() ==> is_digit(#[trigger] s[i]),
    ensures
        decimal_val(s) >= 0,
    decreases s.len(),
{
    if s.len() > 0 {
        lemma_decimal_nonneg(s.drop_last());
    }
}

/// A digit string's value is at least the value of any of its prefixes.
proof fn lemma_decimal_prefix(s: Seq<u8>, m: int)
    requires
        0 <= m <= s.len(),
        forall|i: int| 0 <= i < s.len() ==> is_digit(#[trigger] s[i]),
    ensures
        decimal_val(s) >= decimal_val(s.take(m)),
    decreases s.len() - m,
{
    if m == s.len() {
        assert(s.take(m) =~= s);
    } else {
        lemma_decimal_prefix(s, m + 1);
        assert(s.take(m + 1).drop_last() =~= s.take(m));
        lemma_decimal_nonneg(s.take(m));
        assert(decimal_val(s.take(m + 1)) >= decimal_val(s.take(m)));
    }
}

/// Parses a signed 32-bit decimal integer, exactly as `parsed_i32` reads it.
pub fn parse_i32(s: &[u8]) -> (r: Option<i32>)
    ensures
        r == parsed_i32(s@),
{
    let has_sign = s.len() > 0 && (s[0] == 43 || s[0] == 45);
    let negative = s.len() > 0 && s[0] == 45;
    let start: usize = if has_sign {
        1
    } else {
        0
    };
    let ghost mag = magnitude_of(s@);
    proof {
        assert(start as int == sign_len(s@));
    }
    if s.len() == start {
        return None;
    }
    let mut acc: u64 = 0;
    let mut i: usize = start;
    while i < s.len()
        invariant
            start <= i <= s@.len(),
            start as int == sign_len(s@),
            mag == magnitude_of(s@),
            mag.len() > 0,
            forall|j: int| start <= j < i ==> is_digit(#[trigger] s@[j]),
            acc == decimal_val(s@.subrange(start as int, i as int)),
            acc <= 0x8000_0000,
        decreases s@.len() - i,
    {
        let b = s[i];
        if b < 48 || b > 57 {
            proof {
                assert(mag[i - start] == s@[i as int]);
                assert(!all_digits(mag));
            }
            return None;
        }
        let d = (b - 48) as u64;
        proof {
            assert(s@.subrange(start as int, i + 1).drop_last() =~= s@.subrange(
                start as int,
                i as int,
            ));
        }
        acc = acc * 10 + d;
        if acc > 0x8000_0000 {
            proof {
                if all_digits(mag) {
                    assert(forall|j: int| 0 <= j < mag.len() ==> is_digit(#[trigger] mag[j]));
                    assert(mag.take(i + 1 - start) =~= s@.subrange(start as int, i + 1));
                    lemma_decimal_prefix(mag, i + 1 - start);
                    assert(decimal_val(mag) > 0x8000_0000);
                }
            }
            return None;
        }
        i = i + 1;
    }
    proof {
        assert(s@.subrange(start as int, s@.len() as int) =~= mag);
        assert(acc == decimal_val(mag));
        assert(all_digits(mag));
    }
    if negative {
        Some((-(acc as i64)) as i32)
    } else {
        if acc > 0x7fff_ffff {
            return None;
        }
        Some(acc as i32)
    }
}

/// The index of the first `.` at or after position `i`, or the string's
/// length when there is none.
pub open spec fn first_dot_at_or_after(s: Seq<u8>, i: int) -> int
    recommends
        0 <= i <= s.len(),
    decreases s.len() - i,
{
    if i >= s.len() {
        s.len() as int
    } else if s[i] == 46 {
        i
    } else {
        first_dot_at_or_after(s, i + 1)
    }
}

/// The region position `(x, z)` a region file's name encodes: the file
/// name's 2nd and 3rd dot-separated fields, both decimal integers. Any
/// other layout parses to nothing.
pub open spec fn parsed_region_position(name: Seq<u8>) -> Option<(i32, i32)> {
    let d1 = first_dot_at_or_after(name, 0);
    if d1 >= name.len() {
        None
    } else {
        let d2 = first_dot_at_or_after(name, d1 + 1);
        if d2 >= name.len() {
            None
        } else {
            let d3 = first_dot_at_or_after(name, d2 + 1);
            match (parsed_i32(name.subrange(d1 + 1, d2)), parsed_i32(name.subrange(d2 + 1, d3))) {
                (Some(x), Some(z)) => Some((x, z)),
                _ => None,
            }
        }
    }
}

/// Finds the first `.` at or after `from`.
fn find_dot(s: &[u8], from: usize) -> (r: usize)
    requires
        from <= s@.len(),
    ensures
        r == first_dot_at_or_after(s@, from as int),
        from <= r <= s@.len(),
{
    let mut j = from;
    while j < s.len()
        invariant
            from <= j <= s@.len(),
            first_dot_at_or_after(s@, from as int) == first_dot_at_or_after(s@, j as int),
        decreases s@.len() - j,
    {
        if s[j] == 46 {
            return j;
        }
        j = j + 1;
    }
    j
}

/// Parses the region position out of a region file's name, exactly as
/// `parsed_region_position` reads it.
pub fn parse_region_position(name: &[u8]) -> (r: Option<(i32, i32)>)
    ensures
        r == parsed_region_position(name@),
{
    let d1 = find_dot(name, 0);
    if d1 == name.len() {
        return None;
    }
    let d2 = find_dot(name, d1 + 1);
    if d2 == name.len() {
        return None;
    }
    let d3 = find_dot(name, d2 + 1);
    let tok1 = slice_subrange(name, d1 + 1, d2);
    let tok2 = slice_subrange(name, d2 + 1, d3);
    match (parse_i32(tok1), parse_i32(tok2)) {
        (Some(x), Some(z)) => Some((x, z)),
        _ => None,
    }
}

/// `b` with an ASCII upper-case letter folded to lower case.
pub open spec fn lower_byte(b: u8) -> u8 {
    if 65 <= b <= 90 {
        (b + 32) as u8
    } else {
        b
    }
}

/// `s` with every ASCII upper-case letter folded to lower case.
pub open spec fn lowered(s: Seq<u8>) -> Seq<u8> {
    s.map_values(|b: u8| lower_byte(b))
}

/// The bytes of the keyword `takecurrent`.
pub open spec fn keyword_take_current() -> Seq<u8> {
    seq![116u8, 97u8, 107u8, 101u8, 99u8, 117u8, 114u8, 114u8, 101u8, 110u8, 116u8]
}

/// The bytes of the keyword `takeuntracked`.
pub open spec fn keyword_take_untracked() -> Seq<u8> {
    seq![116u8, 97u8, 107u8, 101u8, 117u8, 110u8, 116u8, 114u8, 97u8, 99u8, 107u8, 101u8, 100u8]
}

/// The duplicate behaviour a line of input names, compared without regard
/// to ASCII case: `takecurrent` or `takeuntracked`.
pub open spec fn parsed_behaviour(s: Seq<u8>) -> Option<DuplicateBehaviour> {
    if lowered(s) == keyword_take_current() {
        Some(DuplicateBehaviour::TakeCurrent)
    } else if lowered(s) == keyword_take_untracked() {
        Some(DuplicateBehaviour::TakeUntracked)
    } else {
        None
    }
}

/// Whether `s`, case-folded, equals the keyword bytes.
fn eq_lowered(s: &[u8], keyword: &Vec<u8>) -> (r: bool)
    ensures
        r == (lowered(s@) == keyword@),
{
    if s.len() != keyword.len() {
        proof {
            assert(lowered(s@).len() == s@.len());
        }
        return false;
    }
    let mut i: usize = 0;
    while i < s.len()
        invariant
            i <= s@.len(),
            s@.len() == keyword@.len(),
            forall|j: int| 0 <= j < i ==> lowered(s@)[j] == keyword@[j],
        decreases s@.len() - i,
    {
        let b = s[i];
        let low = if b >= 65 && b <= 90 {
            b + 32
        } else {
            b
        };
        proof {
            assert(lowered(s@)[i as int] == lower_byte(s@[i as int]));
        }
        if low != keyword[i] {
            proof {
                assert(lowered(s@)[i as int] != keyword@[i as int]);
            }
            return false;
        }
        i = i + 1;
    }
    proof {
        assert(lowered(s@) =~= keyword@);
    }
    true
}

/// The bytes of `takecurrent`, as a vector.
fn keyword_take_current_vec() -> (r: Vec<u8>)
    ensures
        r@ == keyword_take_current(),
{
    let mut v: Vec<u8> = Vec::new();
    v.push(116);
    v.push(97);
    v.push(107);
    v.push(101);
    v.push(99);
    v.push(117);
    v.push(114);
    v.push(114);
    v.push(101);
    v.push(110);
    v.push(116);
    proof {
        assert(v@ =~= keyword_take_current());
    }
    v
}

/// The bytes of `takeuntracked`, as a vector.
fn keyword_take_untracked_vec() -> (r: Vec<u8>)
    ensures
        r@ == keyword_take_untracked(),
{
    let mut v: Vec<u8> = Vec::new();
    v.push(116);
    v.push(97);
    v.push(107);
    v.push(101);
    v.push(117);
    v.push(110);
    v.push(116);
    v.push(114);
    v.push(97);
    v.push(99);
    v.push(107);
    v.push(101);
    v.push(100);
    proof {
        assert(v@ =~= keyword_take_untracked());
    }
    v
}

/// Parses a duplicate-behaviour keyword, without regard to ASCII case,
/// exactly as `parsed_behaviour` reads it.
pub fn parse_duplicate_behaviour(line: &[u8]) -> (r: Option<DuplicateBehaviour>)
    ensures
        r == parsed_behaviour(line@),
{
    let current = keyword_take_current_vec();
    if eq_lowered(line, &current) {
        return Some(DuplicateBehaviour::TakeCurrent);
    }
    let untracked = keyword_take_untracked_vec();
    if eq_lowered(line, &untracked) {
        return Some(DuplicateBehaviour::TakeUntracked);
    }
    None
}

} // verus!
