//! Numeric pattern recognition helpers used by the parsing passes.
use vstd::prelude::*;

use crate::text::{
    all_ascii_digits, ascii_hex, chars_of, is_ascii_digit, is_ascii_hex, is_numeric, lower_of, numeric,
    only_ascii_digits, slice_of, str_eq, to_lower,
};

verus! {

/// Earliest year accepted as a production year.
pub const ANIME_YEAR_MIN: i32 = 1917;

/// Latest year accepted as a production year.
pub const ANIME_YEAR_MAX: i32 = 2050;

// ---------------------------------------------------------------------------
// Decimal literals
// ---------------------------------------------------------------------------

/// The value of a sequence of ASCII digits, most significant first.
pub open spec fn digits_value(s: Seq<char>) -> nat
    decreases s.len(),
{
    if s.len() == 0 {
        0
    } else {
        digits_value(s.drop_last()) * 10 + ((s.last() as int - '0' as int) as nat)
    }
}

/// The value of a decimal literal with an optional `+` or `-` sign, as `str::parse::<i32>`
/// reads it before range checking.
pub open spec fn signed_literal(s: Seq<char>) -> Option<int> {
    if s.len() == 0 {
        None
    } else if s[0] == '-' || s[0] == '+' {
        let body = s.drop_first();
        if body.len() > 0 && only_ascii_digits(body) {
            if s[0] == '-' {
                Some(-(digits_value(body) as int))
            } else {
                Some(digits_value(body) as int)
            }
        } else {
            None
        }
    } else if only_ascii_digits(s) {
        Some(digits_value(s) as int)
    } else {
        None
    }
}

/// The value of a decimal literal with an optional `+` sign, as `str::parse::<u32>` reads it
/// before range checking.
pub open spec fn unsigned_literal(s: Seq<char>) -> Option<int> {
    if s.len() == 0 {
        None
    } else if s[0] == '+' {
        let body = s.drop_first();
        if body.len() > 0 && only_ascii_digits(body) {
            Some(digits_value(body) as int)
        } else {
            None
        }
    } else if only_ascii_digits(s) {
        Some(digits_value(s) as int)
    } else {
        None
    }
}

/// What `str::parse::<i32>` returns, `Ok` mapped to `Some`.
pub open spec fn parsed_i32(s: Seq<char>) -> Option<i32> {
    match signed_literal(s) {
        Some(v) => if i32::MIN <= v <= i32::MAX {
            Some(v as i32)
        } else {
            None
        },
        None => None,
    }
}

/// What `str::parse::<u32>` returns, `Ok` mapped to `Some`.
pub open spec fn parsed_u32(s: Seq<char>) -> Option<u32> {
    match unsigned_literal(s) {
        Some(v) => if 0 <= v <= u32::MAX {
            Some(v as u32)
        } else {
            None
        },
        None => None,
    }
}

/// `10` to the power `n`.
pub open spec fn pow10(n: nat) -> nat
    decreases n,
{
    if n == 0 {
        1
    } else {
        10 * pow10((n - 1) as nat)
    }
}

/// A digit string of `n` digits is worth less than `10` to the power `n`.
pub proof fn lemma_digits_value_bound(s: Seq<char>)
    requires
        only_ascii_digits(s),
    ensures
        digits_value(s) < pow10(s.len()),
    decreases s.len(),
{
    if s.len() > 0 {
        assert(only_ascii_digits(s.drop_last())) by {
            assert forall|i: int| 0 <= i < s.drop_last().len() implies is_ascii_digit(#[trigger] s.drop_last()[i]) by {
                assert(s.drop_last()[i] == s[i]);
            }
        }
        lemma_digits_value_bound(s.drop_last());
        assert(is_ascii_digit(s[s.len() - 1]));
        let v = digits_value(s.drop_last());
        let d = (s.last() as int - '0' as int) as nat;
        let b = pow10((s.len() - 1) as nat);
        assert(d <= 9);
        assert(v * 10 + d < 10 * b) by (nonlinear_arith)
            requires
                v < b,
                d <= 9,
        ;
    }
}

/// A longer digit string is worth at least as much as its prefix.
pub proof fn lemma_digits_value_prefix(s: Seq<char>, k: int)
    requires
        0 <= k <= s.len(),
        only_ascii_digits(s),
    ensures
        digits_value(s.take(k)) <= digits_value(s),
    decreases s.len(),
{
    if k < s.len() {
        assert(s.drop_last().take(k) =~= s.take(k));
        assert(only_ascii_digits(s.drop_last())) by {
            assert forall|i: int| 0 <= i < s.drop_last().len() implies is_ascii_digit(#[trigger] s.drop_last()[i]) by {
                assert(s.drop_last()[i] == s[i]);
            }
        }
        lemma_digits_value_prefix(s.drop_last(), k);
    } else {
        assert(s.take(k) =~= s);
    }
}

/// The value of the digits `cs[start..]` when it is at most `limit`.
fn digits_upto(cs: &Vec<char>, start: usize, limit: u64) -> (r: Option<u64>)
    requires
        start <= cs@.len(),
        limit <= 0x1_0000_0000,
        only_ascii_digits(cs@.subrange(start as int, cs@.len() as int)),
    ensures
        match r {
            Some(v) => v == digits_value(cs@.subrange(start as int, cs@.len() as int)) && v <= limit,
            None => digits_value(cs@.subrange(start as int, cs@.len() as int)) > limit,
        },
{
    let ghost body = cs@.subrange(start as int, cs@.len() as int);
    let n = cs.len();
    let mut acc: u64 = 0;
    let mut i = start;
    assert(body.take(0) =~= Seq::<char>::empty());
    while i < n
        invariant
            n == cs@.len(),
            start <= i <= n,
            body == cs@.subrange(start as int, n as int),
            only_ascii_digits(body),
            limit <= 0x1_0000_0000,
            acc == digits_value(body.take(i - start)),
            acc <= limit,
        decreases n - i,
    {
        let c = cs[i];
        assert(body[i - start] == c);
        assert(is_ascii_digit(c));
        let d = (c as u32 - '0' as u32) as u64;
        assert(body.take(i - start + 1).drop_last() =~= body.take(i - start));
        assert(body.take(i - start + 1).last() == c);
        let next = acc * 10 + d;
        if next > limit {
            proof {
                lemma_digits_value_prefix(body, i - start + 1);
            }
            return None;
        }
        acc = next;
        i = i + 1;
    }
    assert(body.take(n - start) =~= body);
    Some(acc)
}

/// `str::parse::<i32>`, `Ok` mapped to `Some`.
pub fn parse_i32(s: &str) -> (r: Option<i32>)
    ensures
        r == parsed_i32(s@),
{
    let cs = chars_of(s);
    let n = cs.len();
    if n == 0 {
        return None;
    }
    let signed = cs[0] == '-' || cs[0] == '+';
    let start: usize = if signed { 1 } else { 0 };
    if start >= n {
        return None;
    }
    let body = slice_of(&cs, start, n);
    if !all_ascii_digits(&body) {
        proof {
            if !signed {
                assert(body@ =~= cs@);
            } else {
                assert(body@ =~= cs@.drop_first());
            }
        }
        return None;
    }
    proof {
        if !signed {
            assert(body@ =~= cs@);
            assert(cs@.subrange(0, n as int) =~= cs@);
        } else {
            assert(body@ =~= cs@.drop_first());
        }
    }
    if cs[0] == '-' {
        match digits_upto(&cs, start, 0x8000_0000) {
            Some(v) => Some((0 - (v as i64)) as i32),
            None => None,
        }
    } else {
        match digits_upto(&cs, start, 0x7fff_ffff) {
            Some(v) => Some(v as i32),
            None => None,
        }
    }
}

/// `str::parse::<u32>`, `Ok` mapped to `Some`.
pub fn parse_u32(s: &str) -> (r: Option<u32>)
    ensures
        r == parsed_u32(s@),
{
    let cs = chars_of(s);
    let n = cs.len();
    if n == 0 {
        return None;
    }
    let signed = cs[0] == '+';
    let start: usize = if signed { 1 } else { 0 };
    if start >= n {
        return None;
    }
    let body = slice_of(&cs, start, n);
    if !all_ascii_digits(&body) {
        proof {
            if !signed {
                assert(body@ =~= cs@);
            } else {
                assert(body@ =~= cs@.drop_first());
            }
        }
        return None;
    }
    proof {
        if !signed {
            assert(body@ =~= cs@);
            assert(cs@.subrange(0, n as int) =~= cs@);
        } else {
            assert(body@ =~= cs@.drop_first());
        }
    }
    match digits_upto(&cs, start, 0xffff_ffff) {
        Some(v) => Some(v as u32),
        None => None,
    }
}

// ---------------------------------------------------------------------------
// Recognisers
// ---------------------------------------------------------------------------

/// A non-empty text of ASCII hexadecimal digits.
pub open spec fn hexa_spec(s: Seq<char>) -> bool {
    s.len() > 0 && forall|i: int| 0 <= i < s.len() ==> is_ascii_hex(#[trigger] s[i])
}

/// Eight ASCII hexadecimal digits.
pub open spec fn crc32_spec(s: Seq<char>) -> bool {
    s.len() == 8 && hexa_spec(s)
}

/// `s` without one leading `+` or `-` sign, if it has one.
pub open spec fn unsigned_part(s: Seq<char>) -> Seq<char> {
    if s.len() > 0 && (s[0] == '+' || s[0] == '-') {
        s.drop_first()
    } else {
        s
    }
}

/// A non-empty run of ASCII digits after at most one leading `+` or `-` sign.
pub open spec fn digit_spec(s: Seq<char>) -> bool {
    let t = unsigned_part(s);
    t.len() > 0 && only_ascii_digits(t)
}

/// At least one character of `s` is numeric.
pub open spec fn contains_digit_spec(s: Seq<char>) -> bool {
    exists|i: int| 0 <= i < s.len() && numeric(#[trigger] s[i])
}

/// A production year: an `i32` literal between 1917 and 2050.
pub open spec fn anime_year_spec(s: Seq<char>) -> bool {
    match parsed_i32(s) {
        Some(y) => ANIME_YEAR_MIN <= y <= ANIME_YEAR_MAX,
        None => false,
    }
}

/// The separators of a `WxH` resolution.
pub open spec fn is_dimension_sep(c: char) -> bool {
    c == 'x' || c == 'X' || c == '×'
}

/// Three or four ASCII digits.
pub open spec fn dimension_ok(s: Seq<char>) -> bool {
    (s.len() == 3 || s.len() == 4) && only_ascii_digits(s)
}

/// `k` is the first separator of `s`.
pub open spec fn is_first_dimension_sep(s: Seq<char>, k: int) -> bool {
    &&& 0 <= k < s.len()
    &&& is_dimension_sep(s[k])
    &&& forall|j: int| 0 <= j < k ==> !is_dimension_sep(#[trigger] s[j])
}

/// A video resolution: `2K`/`4K`/`8K`; three or four digits followed by `p` or `i`; or
/// three or four digits, a first `x`, `X` or `×`, and three or four digits.
pub open spec fn resolution_spec(s: Seq<char>) -> bool {
    if s.len() == 0 {
        false
    } else if s.len() == 2 && (s[0] == '2' || s[0] == '4' || s[0] == '8') && (s[1] == 'K' || s[1] == 'k') {
        true
    } else if s.last() == 'p' || s.last() == 'P' || s.last() == 'i' || s.last() == 'I' {
        (s.len() == 4 || s.len() == 5) && only_ascii_digits(s.drop_last())
    } else {
        exists|k: int| #[trigger] is_first_dimension_sep(s, k)
            && dimension_ok(s.subrange(0, k))
            && dimension_ok(s.subrange(k + 1, s.len() as int))
    }
}

/// Returns `true` if every character of `s` is a hexadecimal digit (and there is one).
pub fn is_hexa(s: &str) -> (r: bool)
    ensures
        r == hexa_spec(s@),
{
    let cs = chars_of(s);
    let n = cs.len();
    if n == 0 {
        return false;
    }
    let mut i: usize = 0;
    while i < n
        invariant
            n == cs@.len(),
            cs@ == s@,
            0 <= i <= n,
            forall|j: int| 0 <= j < i ==> is_ascii_hex(#[trigger] cs@[j]),
        decreases n - i,
    {
        if !ascii_hex(cs[i]) {
            assert(!is_ascii_hex(cs@[i as int]));
            return false;
        }
        i = i + 1;
    }
    true
}

/// Returns `true` if `s` is exactly 8 hexadecimal characters (CRC32 format).
pub fn is_crc32(s: &str) -> (r: bool)
    ensures
        r == crc32_spec(s@),
{
    let cs = chars_of(s);
    cs.len() == 8 && is_hexa(s)
}

/// Returns `true` if `s` is a non-empty string of ASCII digits (optional leading `+`/`-`).
pub fn is_digit(s: &str) -> (r: bool)
    ensures
        r == digit_spec(s@),
{
    let cs = chars_of(s);
    let n = cs.len();
    let a: usize = if n > 0 && (cs[0] == '+' || cs[0] == '-') { 1 } else { 0 };
    let t = slice_of(&cs, a, n);
    proof {
        if a == 1 {
            assert(t@ =~= cs@.drop_first());
        } else {
            assert(t@ =~= cs@);
        }
    }
    t.len() > 0 && all_ascii_digits(&t)
}

/// Returns `true` if `s` contains at least one numeric character.
pub fn contains_digit(s: &str) -> (r: bool)
    ensures
        r == contains_digit_spec(s@),
{
    let cs = chars_of(s);
    let n = cs.len();
    let mut i: usize = 0;
    while i < n
        invariant
            n == cs@.len(),
            cs@ == s@,
            0 <= i <= n,
            forall|j: int| 0 <= j < i ==> !numeric(#[trigger] cs@[j]),
        decreases n - i,
    {
        if is_numeric(cs[i]) {
            assert(numeric(cs@[i as int]));
            return true;
        }
        i = i + 1;
    }
    false
}

/// Returns `true` if `s` parses as a plausible anime production year (1917–2050).
pub fn is_anime_year(s: &str) -> (r: bool)
    ensures
        r == anime_year_spec(s@),
{
    match parse_i32(s) {
        Some(y) => ANIME_YEAR_MIN <= y && y <= ANIME_YEAR_MAX,
        None => false,
    }
}

/// Whether `s` is three or four ASCII digits.
fn dimension(s: &Vec<char>) -> (r: bool)
    ensures
        r == dimension_ok(s@),
{
    (s.len() == 3 || s.len() == 4) && all_ascii_digits(s)
}

/// Returns `true` if `s` looks like a video resolution (`1080p`, `720i`, `1920x1080`, `4K`…).
pub fn is_resolution(s: &str) -> (r: bool)
    ensures
        r == resolution_spec(s@),
{
    let cs = chars_of(s);
    let n = cs.len();
    if n == 0 {
        return false;
    }
    if n == 2 && (cs[0] == '2' || cs[0] == '4' || cs[0] == '8') && (cs[1] == 'K' || cs[1] == 'k') {
        return true;
    }
    let last = cs[n - 1];
    if last == 'p' || last == 'P' || last == 'i' || last == 'I' {
        let digits = slice_of(&cs, 0, n - 1);
        assert(digits@ =~= cs@.drop_last());
        return (n == 4 || n == 5) && all_ascii_digits(&digits);
    }
    dimension_form(&cs)
}

/// Whether `cs` is three or four digits, a first `x`, `X` or `×`, and three or four digits.
fn dimension_form(cs: &Vec<char>) -> (r: bool)
    ensures
        r == exists|k: int| #[trigger] is_first_dimension_sep(cs@, k)
            && dimension_ok(cs@.subrange(0, k))
            && dimension_ok(cs@.subrange(k + 1, cs@.len() as int)),
{
    let n = cs.len();
    let mut k: usize = 0;
    while k < n
        invariant
            n == cs@.len(),
            0 <= k <= n,
            forall|j: int| 0 <= j < k ==> !is_dimension_sep(#[trigger] cs@[j]),
        decreases n - k,
    {
        let c = cs[k];
        if c == 'x' || c == 'X' || c == '×' {
            assert(is_first_dimension_sep(cs@, k as int));
            let left = slice_of(&cs, 0, k);
            let right = slice_of(&cs, k + 1, n);
            let r = dimension(&left) && dimension(&right);
            proof {
                if r {
                    assert(is_first_dimension_sep(cs@, k as int)
                        && dimension_ok(cs@.subrange(0, k as int))
                        && dimension_ok(cs@.subrange(k + 1, n as int)));
                }
                if !r {
                    assert forall|k2: int| #[trigger] is_first_dimension_sep(cs@, k2) implies
                        !(dimension_ok(cs@.subrange(0, k2)) && dimension_ok(cs@.subrange(k2 + 1, n as int))) by {
                        assert(k2 == k) by {
                            if k2 < k { assert(!is_dimension_sep(cs@[k2])); }
                            if k2 > k { assert(!is_dimension_sep(cs@[k as int])); }
                        }
                    }
                }
            }
            return r;
        }
        k = k + 1;
    }
    assert forall|k2: int| #[trigger] is_first_dimension_sep(cs@, k2) implies false by {
        assert(!is_dimension_sep(cs@[k2]));
    }
    false
}

/// The digit named by an English ordinal (`1st`…`9th`, `first`…`ninth`), already lower-cased;
/// the empty text otherwise.
pub open spec fn ordinal_value(s: Seq<char>) -> Seq<char> {
    if s == "1st"@ || s == "first"@ {
        "1"@
    } else if s == "2nd"@ || s == "second"@ {
        "2"@
    } else if s == "3rd"@ || s == "third"@ {
        "3"@
    } else if s == "4th"@ || s == "fourth"@ {
        "4"@
    } else if s == "5th"@ || s == "fifth"@ {
        "5"@
    } else if s == "6th"@ || s == "sixth"@ {
        "6"@
    } else if s == "7th"@ || s == "seventh"@ {
        "7"@
    } else if s == "8th"@ || s == "eighth"@ {
        "8"@
    } else if s == "9th"@ || s == "ninth"@ {
        "9"@
    } else {
        ""@
    }
}

/// Converts English ordinals (`"1st"`, `"first"`, …) to their digit string; returns `""` otherwise.
pub fn ordinals_to_nb(ordinal: &str) -> (r: &'static str)
    ensures
        r@ == ordinal_value(lower_of(ordinal@)),
{
    let lower = to_lower(ordinal);
    let l = lower.as_str();
    if str_eq(l, "1st") || str_eq(l, "first") {
        "1"
    } else if str_eq(l, "2nd") || str_eq(l, "second") {
        "2"
    } else if str_eq(l, "3rd") || str_eq(l, "third") {
        "3"
    } else if str_eq(l, "4th") || str_eq(l, "fourth") {
        "4"
    } else if str_eq(l, "5th") || str_eq(l, "fifth") {
        "5"
    } else if str_eq(l, "6th") || str_eq(l, "sixth") {
        "6"
    } else if str_eq(l, "7th") || str_eq(l, "seventh") {
        "7"
    } else if str_eq(l, "8th") || str_eq(l, "eighth") {
        "8"
    } else if str_eq(l, "9th") || str_eq(l, "ninth") {
        "9"
    } else {
        ""
    }
}

} // verus!
