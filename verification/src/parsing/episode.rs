//! Episode number extraction: prefix patterns, season+episode patterns, and bare digit heuristics.
use vstd::prelude::*;

use crate::elements::{Category, ElementView, Elements, none_of};
use crate::keyword::{keyword_of, Keyword, Manager};
use crate::parsing::number::{
    digit_spec, digits_value, is_digit, lemma_digits_value_bound, parse_u32, parsed_u32, pow10,
};
use crate::split::{is_type_split, split_type_and_ep};
use crate::text::{ascii_digit, chars_of, is_ascii_digit, only_ascii_digits, slice_of, trim_chars, trimmed};

verus! {

// ── helpers ──────────────────────────────────────────────────────────────────

/// A non-empty run of ASCII digits.
pub open spec fn all_digits_spec(s: Seq<char>) -> bool {
    s.len() > 0 && only_ascii_digits(s)
}

/// Whether `s` is a non-empty run of ASCII digits.
pub fn all_digits(s: &Vec<char>) -> (r: bool)
    ensures
        r == all_digits_spec(s@),
{
    s.len() > 0 && crate::text::all_ascii_digits(s)
}

/// `v` or `V`.
pub open spec fn is_v(c: char) -> bool {
    c == 'v' || c == 'V'
}

/// An episode number of one to four digits, optionally followed by `v` and a one-digit version.
pub open spec fn ep_with_version_spec(s: Seq<char>) -> Option<(Seq<char>, Option<Seq<char>>)> {
    let n = s.len();
    if n == 0 {
        None
    } else if n >= 2 && is_v(s[n - 2]) && is_ascii_digit(s[n - 1])
        && all_digits_spec(s.subrange(0, n - 2)) && n - 2 <= 4 {
        Some((s.subrange(0, n - 2), Some(s.subrange(n - 1, n as int))))
    } else if n <= 4 && all_digits_spec(s) {
        Some((s, None))
    } else {
        None
    }
}

/// Parses `NNNNvD` into its digits and version, or `NNNN` into its digits.
pub fn parse_ep_with_version(s: &Vec<char>) -> (r: Option<(Vec<char>, Option<Vec<char>>)>)
    ensures
        match ep_with_version_spec(s@) {
            Some((e, v)) => r matches Some((e2, v2)) && e2@ == e && match v {
                Some(v) => v2 matches Some(v3) && v3@ == v,
                None => v2 is None,
            },
            None => r is None,
        },
{
    let n = s.len();
    if n == 0 {
        return None;
    }
    if n >= 2 && (s[n - 2] == 'v' || s[n - 2] == 'V') && ascii_digit(s[n - 1]) {
        let digits = slice_of(s, 0, n - 2);
        if digits.len() > 0 && digits.len() <= 4 && all_digits(&digits) {
            return Some((digits, Some(slice_of(s, n - 1, n))));
        }
    }
    if n <= 4 && all_digits(s) {
        assert(s@.subrange(0, n as int) =~= s@);
        return Some((slice_of(s, 0, n), None));
    }
    None
}

/// `k` is the position of the first `.` of `s`.
pub open spec fn is_first_dot(s: Seq<char>, k: int) -> bool {
    &&& 0 <= k < s.len()
    &&& s[k] == '.'
    &&& forall|j: int| 0 <= j < k ==> (#[trigger] s[j]) != '.'
}

/// A fractional episode: digits, a first `.`, digits.
pub open spec fn fractal_spec(s: Seq<char>) -> bool {
    exists|k: int| #[trigger] is_first_dot(s, k)
        && all_digits_spec(s.subrange(0, k))
        && all_digits_spec(s.subrange(k + 1, s.len() as int))
}

/// Whether `s` is digits, a first `.`, and digits.
pub fn is_fractal(s: &Vec<char>) -> (r: bool)
    ensures
        r == fractal_spec(s@),
{
    let n = s.len();
    let mut k: usize = 0;
    while k < n
        invariant
            n == s@.len(),
            0 <= k <= n,
            forall|j: int| 0 <= j < k ==> (#[trigger] s@[j]) != '.',
        decreases n - k,
    {
        if s[k] == '.' {
            assert(is_first_dot(s@, k as int));
            let r = all_digits(&slice_of(s, 0, k)) && all_digits(&slice_of(s, k + 1, n));
            proof {
                if !r {
                    assert forall|k2: int| #[trigger] is_first_dot(s@, k2) implies
                        !(all_digits_spec(s@.subrange(0, k2)) && all_digits_spec(s@.subrange(k2 + 1, n as int))) by {
                        assert(k2 == k) by {
                            if k2 < k { assert(s@[k2] != '.'); }
                            if k2 > k { assert(s@[k as int] != '.'); }
                        }
                    }
                }
            }
            return r;
        }
        k = k + 1;
    }
    assert forall|k2: int| #[trigger] is_first_dot(s@, k2) implies false by {
        assert(s@[k2] != '.');
    }
    false
}

/// The end of the run of at most `max` ASCII digits of `s` starting at `start`.
pub open spec fn digit_run_end(s: Seq<char>, start: int, max: nat) -> int
    decreases max,
{
    if 0 <= start < s.len() && max > 0 && is_ascii_digit(s[start]) {
        digit_run_end(s, start + 1, (max - 1) as nat)
    } else {
        start
    }
}

/// The end of the run of at most `max` ASCII digits of `s` starting at `start`.
fn digit_run(s: &Vec<char>, start: usize, max: usize) -> (r: usize)
    requires
        start <= s@.len(),
    ensures
        r == digit_run_end(s@, start as int, max as nat),
        start <= r <= s@.len(),
        r - start <= max,
{
    let n = s.len();
    let mut pos = start;
    while pos < n && pos - start < max && ascii_digit(s[pos])
        invariant
            n == s@.len(),
            start <= pos <= n,
            pos - start <= max,
            digit_run_end(s@, start as int, max as nat) == digit_run_end(s@, pos as int, (max - (pos - start)) as nat),
        decreases n - pos,
    {
        pos = pos + 1;
    }
    pos
}

/// A range end of the season/episode pattern: at `p` a `-`, then optionally `S` (`s`) or
/// `E` (`e`) as `letter` says, then one to `max` digits. Gives the new position and the digits.
pub open spec fn range_part(s: Seq<char>, p: int, upper: char, lower: char, max: nat) -> (int, Option<Seq<char>>) {
    if p < s.len() && s[p] == '-' {
        let q = if p + 1 < s.len() && (s[p + 1] == upper || s[p + 1] == lower) { p + 2 } else { p + 1 };
        let e = digit_run_end(s, q, max);
        if e == q {
            (p, None)
        } else {
            (e, Some(s.subrange(q, e)))
        }
    } else {
        (p, None)
    }
}

/// The elements of category `c` holding the text of `o`, if any.
pub open spec fn opt_elem(c: Category, o: Option<Seq<char>>) -> Seq<ElementView> {
    match o {
        Some(v) => seq![(c, v)],
        None => Seq::empty(),
    }
}

/// A version suffix at `p`: `v` or `V` and one digit. Gives the new position and the digit.
pub open spec fn version_part(s: Seq<char>, p: int) -> (int, Option<Seq<char>>) {
    if 0 <= p && p + 1 < s.len() && is_v(s[p]) && is_ascii_digit(s[p + 1]) {
        (p + 2, Some(s.subrange(p + 1, p + 2)))
    } else {
        (p, None)
    }
}

/// The position after the separator of the season/episode pattern at `p`: `x`/`X`, or an
/// optional space, `.`, `_` or `-` followed by `E`/`e`.
pub open spec fn season_sep(s: Seq<char>, p: int) -> Option<int> {
    if s[p] == 'x' || s[p] == 'X' {
        Some(p + 1)
    } else {
        let q = if s[p] == ' ' || s[p] == '.' || s[p] == '_' || s[p] == '-' { p + 1 } else { p };
        if q >= s.len() || (s[q] != 'E' && s[q] != 'e') {
            None
        } else {
            Some(q + 1)
        }
    }
}

/// The elements found by the season/episode pattern
/// `S?(\d{1,2})(-S?\d{1,2})?(x|[ ._-]?E)(\d{1,4})(-E?\d{1,4})?([vV]\d)?` covering all of `s`
/// (the season must not be 0), or `None` when it does not match.
#[verifier::opaque]
pub open spec fn season_ep_spec(s: Seq<char>) -> Option<Seq<ElementView>> {
    let p0: int = if 0 < s.len() && (s[0] == 'S' || s[0] == 's') { 1 } else { 0 };
    let p1 = digit_run_end(s, p0, 2);
    let season1 = s.subrange(p0, p1);
    if p1 == p0 {
        None
    } else if parsed_u32(season1).unwrap_or(0) == 0 {
        None
    } else {
        let (p2, season2) = range_part(s, p1, 'S', 's', 2);
        if p2 >= s.len() {
            None
        } else {
            match season_sep(s, p2) {
                None => None,
                Some(p3) => {
                    let p4 = digit_run_end(s, p3, 4);
                    if p4 == p3 {
                        None
                    } else {
                        let ep1 = s.subrange(p3, p4);
                        let (p5, ep2) = range_part(s, p4, 'E', 'e', 4);
                        let (p6, version) = version_part(s, p5);
                        if p6 != s.len() {
                            None
                        } else {
                            Some(seq![(Category::AnimeSeason, season1)]
                                + opt_elem(Category::AnimeSeason, season2)
                                + seq![(Category::EpisodeNumber, ep1)]
                                + opt_elem(Category::EpisodeNumber, ep2)
                                + opt_elem(Category::ReleaseVersion, version))
                        }
                    }
                }
            }
        }
    }
}

/// A run of exactly `k` digits at `start` (ended by the text's end, a non-digit, or the limit)
/// ends at `start + k`.
proof fn lemma_digit_run_end(s: Seq<char>, start: int, max: nat, k: int)
    requires
        0 <= start,
        0 <= k <= max,
        start + k <= s.len(),
        forall|j: int| start <= j < start + k ==> is_ascii_digit(#[trigger] s[j]),
        k == max || start + k == s.len() || !is_ascii_digit(s[start + k]),
    ensures
        digit_run_end(s, start, max) == start + k,
    decreases k,
{
    if k > 0 {
        lemma_digit_run_end(s, start + 1, (max - 1) as nat, k - 1);
    }
}

/// The season/episode pattern on `S01E05` and its like: an optional `S`, the season digits (one
/// or two, not worth zero), an `E` (or `x`), and the episode digits (one to four). The season is
/// the digits before the separator and the episode the digits after it, in that order.
pub proof fn law_season_episode(p: Seq<char>, d1: Seq<char>, sep: char, d2: Seq<char>)
    requires
        p == seq!['S'] || p == seq!['s'] || p.len() == 0,
        1 <= d1.len() <= 2,
        only_ascii_digits(d1),
        digits_value(d1) != 0,
        sep == 'E' || sep == 'e' || sep == 'x' || sep == 'X',
        1 <= d2.len() <= 4,
        only_ascii_digits(d2),
    ensures
        season_ep_spec(p + d1 + seq![sep] + d2) == Some(
            seq![(Category::AnimeSeason, d1), (Category::EpisodeNumber, d2)],
        ),
{
    reveal(season_ep_spec);
    let s = p + d1 + seq![sep] + d2;
    let p0 = p.len() as int;
    let p1 = p0 + d1.len();
    let p3 = p1 + 1;
    let p4 = p3 + d2.len();
    assert(s.len() == p4);
    assert forall|j: int| p0 <= j < p1 implies is_ascii_digit(#[trigger] s[j]) by {
        assert(s[j] == d1[j - p0]);
    }
    assert(s[p1] == sep);
    assert(p0 == (if 0 < s.len() && (s[0] == 'S' || s[0] == 's') { 1int } else { 0int })) by {
        if p.len() == 0 {
            assert(s[0] == d1[0]);
            assert(is_ascii_digit(d1[0]));
        } else {
            assert(s[0] == p[0]);
        }
    }
    lemma_digit_run_end(s, p0, 2, d1.len() as int);
    assert(s.subrange(p0, p1) =~= d1);
    lemma_digits_value_bound(d1);
    reveal_with_fuel(pow10, 3);
    assert(d1[0] != '+') by {
        assert(is_ascii_digit(d1[0]));
    }
    assert(parsed_u32(d1) == Some(digits_value(d1) as u32));
    assert(season_sep(s, p1) == Some(p3));
    assert forall|j: int| p3 <= j < p4 implies is_ascii_digit(#[trigger] s[j]) by {
        assert(s[j] == d2[j - p3]);
    }
    lemma_digit_run_end(s, p3, 4, d2.len() as int);
    assert(s.subrange(p3, p4) =~= d2);
    assert(opt_elem(Category::AnimeSeason, None) =~= Seq::<ElementView>::empty());
    assert(opt_elem(Category::EpisodeNumber, None) =~= Seq::<ElementView>::empty());
    assert(opt_elem(Category::ReleaseVersion, None) =~= Seq::<ElementView>::empty());
    assert(seq![(Category::AnimeSeason, d1)] + Seq::<ElementView>::empty() + seq![(Category::EpisodeNumber, d2)]
        + Seq::<ElementView>::empty() + Seq::<ElementView>::empty() =~= seq![
        (Category::AnimeSeason, d1),
        (Category::EpisodeNumber, d2),
    ]);
}

/// How a matcher changed the collection: it appended the elements of `found` when it
/// matched (and answered `true`), and changed nothing otherwise.
pub open spec fn pushed(found: Option<Seq<ElementView>>, r: bool, before: Seq<ElementView>, after: Seq<ElementView>) -> bool {
    match found {
        Some(new) => r && after == before + new,
        None => !r && after == before,
    }
}

/// Appends the elements of category `c` for the text in `o`, if any.
fn push_opt(elements: &mut Elements, c: Category, o: &Option<Vec<char>>)
    ensures
        final(elements)@ == old(elements)@ + opt_elem(c, match o { Some(v) => Some(v@), None => None }),
{
    match o {
        Some(v) => {
            elements.push_chars(c, v);
            assert(elements@ =~= old(elements)@ + seq![(c, v@)]);
        },
        None => {
            assert(elements@ =~= old(elements)@ + Seq::<ElementView>::empty());
        },
    }
}

/// The optional range part at `p`, computed.
fn range_at(s: &Vec<char>, p: usize, upper: char, lower: char, max: usize) -> (r: (usize, Option<Vec<char>>))
    requires
        p <= s@.len(),
    ensures
        p <= r.0 <= s@.len(),
        range_part(s@, p as int, upper, lower, max as nat).0 == r.0,
        range_part(s@, p as int, upper, lower, max as nat).1 == match r.1 { Some(v) => Some(v@), None => None },
{
    let n = s.len();
    if p < n && s[p] == '-' {
        let q = if n - p > 1 && (s[p + 1] == upper || s[p + 1] == lower) { p + 2 } else { p + 1 };
        let e = digit_run(s, q, max);
        if e == q {
            (p, None)
        } else {
            (e, Some(slice_of(s, q, e)))
        }
    } else {
        (p, None)
    }
}

// ── public matchers ───────────────────────────────────────────────────────────

/// The elements found by `(\d{1,4})[vV](\d)` covering all of `s`.
#[verifier::opaque]
pub open spec fn single_ep_spec(s: Seq<char>) -> Option<Seq<ElementView>> {
    let n = s.len();
    if 3 <= n <= 6 && is_ascii_digit(s[n - 1]) && is_v(s[n - 2]) && all_digits_spec(s.subrange(0, n - 2)) {
        Some(seq![(Category::EpisodeNumber, s.subrange(0, n - 2)), (Category::ReleaseVersion, s.subrange(n - 1, n as int))])
    } else {
        None
    }
}

/// `(\d{1,4})[vV](\d)$`
pub fn parse_single_ep(s: &str, elements: &mut Elements) -> (r: bool)
    ensures
        pushed(single_ep_spec(s@), r, old(elements)@, final(elements)@),
{
    reveal(single_ep_spec);
    let cs = chars_of(s);
    let n = cs.len();
    if n < 3 || n > 6 {
        return false;
    }
    if !ascii_digit(cs[n - 1]) || (cs[n - 2] != 'v' && cs[n - 2] != 'V') {
        return false;
    }
    let ep = slice_of(&cs, 0, n - 2);
    if !all_digits(&ep) {
        return false;
    }
    elements.push_chars(Category::EpisodeNumber, &ep);
    elements.push_chars(Category::ReleaseVersion, &slice_of(&cs, n - 1, n));
    assert(elements@ =~= old(elements)@ + single_ep_spec(s@).unwrap());
    true
}

/// The range separators of a multi-episode range.
pub open spec fn is_range_sep(c: char) -> bool {
    c == '-' || c == '~' || c == '&' || c == '+'
}

/// `k` is the position of the first range separator of `s`.
pub open spec fn is_first_range_sep(s: Seq<char>, k: int) -> bool {
    &&& 0 <= k < s.len()
    &&& is_range_sep(s[k])
    &&& forall|j: int| 0 <= j < k ==> !is_range_sep(#[trigger] s[j])
}

/// The elements found by a multi-episode range split at the first range separator `k`.
pub open spec fn multiple_ep_at(s: Seq<char>, k: int) -> Option<Seq<ElementView>> {
    match (ep_with_version_spec(s.subrange(0, k)), ep_with_version_spec(s.subrange(k + 1, s.len() as int))) {
        (Some((ep1, ver1)), Some((ep2, ver2))) => {
            let n1 = parsed_u32(ep1).unwrap_or(u32::MAX);
            let n2 = parsed_u32(ep2).unwrap_or(0);
            if n1 >= n2 {
                None
            } else {
                Some(seq![(Category::EpisodeNumber, ep1), (Category::EpisodeNumber, ep2)]
                    + opt_elem(Category::ReleaseVersion, ver1)
                    + opt_elem(Category::ReleaseVersion, ver2))
            }
        },
        _ => None,
    }
}

/// The elements found by the range pattern `(\d{1,4})(vN)?[-~&+](\d{1,4})(vN)?` covering `s`,
/// split at its first separator, when the first episode is below the second.
#[verifier::opaque]
pub open spec fn multiple_ep_spec(s: Seq<char>) -> Option<Seq<ElementView>> {
    if exists|k: int| is_first_range_sep(s, k) {
        multiple_ep_at(s, choose|k: int| is_first_range_sep(s, k))
    } else {
        None
    }
}

/// `(\d{1,4})(vN)?[-~&+](\d{1,4})(vN)?` — range like "01-03", "01v2-03", "01v1-03v2"
pub fn match_multiple_ep(s: &str, elements: &mut Elements) -> (r: bool)
    ensures
        pushed(multiple_ep_spec(s@), r, old(elements)@, final(elements)@),
{
    reveal(multiple_ep_spec);
    let cs = chars_of(s);
    let n = cs.len();
    let mut k: usize = 0;
    while k < n && !(cs[k] == '-' || cs[k] == '~' || cs[k] == '&' || cs[k] == '+')
        invariant
            n == cs@.len(),
            0 <= k <= n,
            forall|j: int| 0 <= j < k ==> !is_range_sep(#[trigger] cs@[j]),
        decreases n - k,
    {
        k = k + 1;
    }
    if k == n {
        assert(!exists|k2: int| is_first_range_sep(cs@, k2)) by {
            if exists|k2: int| is_first_range_sep(cs@, k2) {
                let k2 = choose|k2: int| is_first_range_sep(cs@, k2);
                assert(!is_range_sep(cs@[k2]));
            }
        }
        return false;
    }
    assert(is_first_range_sep(cs@, k as int));
    proof {
        let k2 = choose|k2: int| is_first_range_sep(cs@, k2);
        assert(k2 == k) by {
            if k2 < k { assert(!is_range_sep(cs@[k2])); }
            if k2 > k { assert(!is_range_sep(cs@[k as int])); }
        }
    }
    let left = slice_of(&cs, 0, k);
    let right = slice_of(&cs, k + 1, n);
    let (ep1, ver1) = match parse_ep_with_version(&left) {
        Some(x) => x,
        None => return false,
    };
    let (ep2, ver2) = match parse_ep_with_version(&right) {
        Some(x) => x,
        None => return false,
    };
    let n1: u32 = match parse_u32(crate::text::string_of(&ep1).as_str()) {
        Some(v) => v,
        None => u32::MAX,
    };
    let n2: u32 = match parse_u32(crate::text::string_of(&ep2).as_str()) {
        Some(v) => v,
        None => 0,
    };
    if n1 >= n2 {
        return false;
    }
    elements.push_chars(Category::EpisodeNumber, &ep1);
    elements.push_chars(Category::EpisodeNumber, &ep2);
    let ghost mid = elements@;
    push_opt(elements, Category::ReleaseVersion, &ver1);
    push_opt(elements, Category::ReleaseVersion, &ver2);
    assert(elements@ =~= old(elements)@ + multiple_ep_spec(s@).unwrap());
    true
}

/// `S?(\d{1,2})(-S?\d{1,2})?([xE])(\d{1,4})(-E?\d{1,4})?([vV]\d)?`
pub fn match_season_ep_patern(s: &str, elements: &mut Elements) -> (r: bool)
    ensures
        pushed(season_ep_spec(s@), r, old(elements)@, final(elements)@),
{
    reveal(season_ep_spec);
    let cs = chars_of(s);
    let len = cs.len();
    let p0: usize = if len > 0 && (cs[0] == 'S' || cs[0] == 's') { 1 } else { 0 };
    let p1 = digit_run(&cs, p0, 2);
    if p1 == p0 {
        return false;
    }
    let season1 = slice_of(&cs, p0, p1);
    let s1v: u32 = match parse_u32(crate::text::string_of(&season1).as_str()) {
        Some(v) => v,
        None => 0,
    };
    if s1v == 0 {
        return false;
    }
    let (p2, season2) = range_at(&cs, p1, 'S', 's', 2);
    if p2 >= len {
        return false;
    }
    let p3: usize;
    if cs[p2] == 'x' || cs[p2] == 'X' {
        p3 = p2 + 1;
    } else {
        let q = if cs[p2] == ' ' || cs[p2] == '.' || cs[p2] == '_' || cs[p2] == '-' { p2 + 1 } else { p2 };
        if q >= len || (cs[q] != 'E' && cs[q] != 'e') {
            return false;
        }
        p3 = q + 1;
    }
    assert(season_sep(cs@, p2 as int) == Some(p3 as int));
    let p4 = digit_run(&cs, p3, 4);
    if p4 == p3 {
        return false;
    }
    let ep1 = slice_of(&cs, p3, p4);
    let (p5, ep2) = range_at(&cs, p4, 'E', 'e', 4);
    let mut p6 = p5;
    let mut version: Option<Vec<char>> = None;
    if len - p5 > 1 && (cs[p5] == 'v' || cs[p5] == 'V') && ascii_digit(cs[p5 + 1]) {
        version = Some(slice_of(&cs, p5 + 1, p5 + 2));
        p6 = p5 + 2;
    }
    assert(version_part(cs@, p5 as int).0 == p6);
    if p6 != len {
        return false;
    }
    elements.push_chars(Category::AnimeSeason, &season1);
    push_opt(elements, Category::AnimeSeason, &season2);
    elements.push_chars(Category::EpisodeNumber, &ep1);
    push_opt(elements, Category::EpisodeNumber, &ep2);
    push_opt(elements, Category::ReleaseVersion, &version);
    assert(elements@ =~= old(elements)@ + season_ep_spec(s@).unwrap());
    true
}

/// The elements found by a fractional episode like `1.5`: the whole text.
#[verifier::opaque]
pub open spec fn fractal_episode_spec(s: Seq<char>) -> Option<Seq<ElementView>> {
    if fractal_spec(s) {
        Some(seq![(Category::EpisodeNumber, s)])
    } else {
        None
    }
}

/// `\d+\.\d+` (fractal episode like "1.5", "11.1")
pub fn match_fractal_episode(s: &str, elements: &mut Elements) -> (r: bool)
    ensures
        pushed(fractal_episode_spec(s@), r, old(elements)@, final(elements)@),
{
    reveal(fractal_episode_spec);
    let cs = chars_of(s);
    if is_fractal(&cs) {
        elements.push(Category::EpisodeNumber, s);
        assert(elements@ =~= old(elements)@ + seq![(Category::EpisodeNumber, s@)]);
        return true;
    }
    false
}

/// The elements found by the Japanese counter `(\d+)話`: the digits.
#[verifier::opaque]
pub open spec fn japanese_counter_spec(s: Seq<char>) -> Option<Seq<ElementView>> {
    if s.len() > 0 && s.last() == '話' && all_digits_spec(s.drop_last()) {
        Some(seq![(Category::EpisodeNumber, s.drop_last())])
    } else {
        None
    }
}

/// `(\d+)話$`
pub fn match_japanese_counter(s: &str, elements: &mut Elements) -> (r: bool)
    ensures
        pushed(japanese_counter_spec(s@), r, old(elements)@, final(elements)@),
{
    reveal(japanese_counter_spec);
    let cs = chars_of(s);
    let n = cs.len();
    if n == 0 || cs[n - 1] != '話' {
        return false;
    }
    let num = slice_of(&cs, 0, n - 1);
    assert(num@ =~= cs@.drop_last());
    if all_digits(&num) {
        elements.push_chars(Category::EpisodeNumber, &num);
        assert(elements@ =~= old(elements)@ + seq![(Category::EpisodeNumber, num@)]);
        return true;
    }
    false
}

/// The elements found by `#(\d{1,4})([-~&+](\d{1,4}))?([vV](\d))?` covering `s`.
#[verifier::opaque]
pub open spec fn number_sign_spec(s: Seq<char>) -> Option<Seq<ElementView>> {
    if s.len() == 0 || s[0] != '#' {
        None
    } else {
        let p1 = digit_run_end(s, 1, 4);
        if p1 == 1 {
            None
        } else {
            let ep1 = s.subrange(1, p1);
            if p1 < s.len() && is_range_sep(s[p1]) {
                let p2 = digit_run_end(s, p1 + 1, 4);
                if p2 == p1 + 1 {
                    None
                } else {
                    let (p3, version) = version_part(s, p2);
                    if p3 != s.len() {
                        None
                    } else {
                        Some(seq![(Category::EpisodeNumber, ep1), (Category::EpisodeNumber, s.subrange(p1 + 1, p2))]
                            + opt_elem(Category::ReleaseVersion, version))
                    }
                }
            } else {
                let (p3, version) = version_part(s, p1);
                if p3 != s.len() {
                    None
                } else {
                    Some(seq![(Category::EpisodeNumber, ep1)] + opt_elem(Category::ReleaseVersion, version))
                }
            }
        }
    }
}

/// `^#(\d{1,4})([-~&+](\d{1,4}))?([vV](\d))?$`
pub fn match_number_sign_patern(s: &str, elements: &mut Elements) -> (r: bool)
    ensures
        pushed(number_sign_spec(s@), r, old(elements)@, final(elements)@),
{
    reveal(number_sign_spec);
    let cs = chars_of(s);
    let len = cs.len();
    if len == 0 || cs[0] != '#' {
        return false;
    }
    let p1 = digit_run(&cs, 1, 4);
    if p1 == 1 {
        return false;
    }
    let ep1 = slice_of(&cs, 1, p1);
    let mut pos = p1;
    let mut ep2: Option<Vec<char>> = None;
    if p1 < len && (cs[p1] == '-' || cs[p1] == '~' || cs[p1] == '&' || cs[p1] == '+') {
        let p2 = digit_run(&cs, p1 + 1, 4);
        if p2 == p1 + 1 {
            return false;
        }
        ep2 = Some(slice_of(&cs, p1 + 1, p2));
        pos = p2;
    }
    let mut version: Option<Vec<char>> = None;
    let mut p3 = pos;
    if len - pos > 1 && (cs[pos] == 'v' || cs[pos] == 'V') && ascii_digit(cs[pos + 1]) {
        version = Some(slice_of(&cs, pos + 1, pos + 2));
        p3 = pos + 2;
    }
    assert(version_part(cs@, pos as int).0 == p3);
    if p3 != len {
        return false;
    }
    elements.push_chars(Category::EpisodeNumber, &ep1);
    push_opt(elements, Category::EpisodeNumber, &ep2);
    push_opt(elements, Category::ReleaseVersion, &version);
    assert(elements@ =~= old(elements)@ + number_sign_spec(s@).unwrap());
    true
}

/// The elements found by digits followed by one of `A`, `B`, `C` (either case): the whole text.
#[verifier::opaque]
pub open spec fn partial_episode_spec(s: Seq<char>) -> Option<Seq<ElementView>> {
    if s.len() > 0 && (s.last() == 'A' || s.last() == 'B' || s.last() == 'C' || s.last() == 'a'
        || s.last() == 'b' || s.last() == 'c') && all_digits_spec(s.drop_last()) {
        Some(seq![(Category::EpisodeNumber, s)])
    } else {
        None
    }
}

/// Digits followed by a single A/B/C suffix — e.g. "125a", "07B"
pub fn match_partial_episode_pattern(s: &str, elements: &mut Elements) -> (r: bool)
    ensures
        pushed(partial_episode_spec(s@), r, old(elements)@, final(elements)@),
{
    reveal(partial_episode_spec);
    let cs = chars_of(s);
    let n = cs.len();
    if n == 0 {
        return false;
    }
    let last = cs[n - 1];
    if !(last == 'A' || last == 'B' || last == 'C' || last == 'a' || last == 'b' || last == 'c') {
        return false;
    }
    let prefix = slice_of(&cs, 0, n - 1);
    assert(prefix@ =~= cs@.drop_last());
    if !all_digits(&prefix) {
        return false;
    }
    elements.push(Category::EpisodeNumber, s);
    assert(elements@ =~= old(elements)@ + seq![(Category::EpisodeNumber, s@)]);
    true
}


// ── parse_single_subtoken ────────────────────────────────────────────────────

/// The elements found by the first pattern other than the keyword-prefix one that matches `s`,
/// trying in turn the number-sign, range, season/episode, versioned, fractional, partial and
/// Japanese-counter patterns.
#[verifier::opaque]
pub open spec fn plain_patterns_spec(s: Seq<char>) -> Option<Seq<ElementView>> {
    if number_sign_spec(s) is Some {
        number_sign_spec(s)
    } else if multiple_ep_spec(s) is Some {
        multiple_ep_spec(s)
    } else if season_ep_spec(s) is Some {
        season_ep_spec(s)
    } else if single_ep_spec(s) is Some {
        single_ep_spec(s)
    } else if fractal_episode_spec(s) is Some {
        fractal_episode_spec(s)
    } else if partial_episode_spec(s) is Some {
        partial_episode_spec(s)
    } else {
        japanese_counter_spec(s)
    }
}

/// The elements found by the first episode pattern that matches `s`, trying in turn the
/// number-sign, range, season/episode, keyword-prefix, versioned, fractional, partial and
/// Japanese-counter patterns.
#[verifier::opaque]
pub open spec fn single_subtoken_spec(d: Seq<char>, s: Seq<char>) -> Option<Seq<ElementView>> {
    if number_sign_spec(s) is Some {
        number_sign_spec(s)
    } else if multiple_ep_spec(s) is Some {
        multiple_ep_spec(s)
    } else if season_ep_spec(s) is Some {
        season_ep_spec(s)
    } else if type_episode_spec(d, s) is Some {
        type_episode_spec(d, s)
    } else if single_ep_spec(s) is Some {
        single_ep_spec(s)
    } else if fractal_episode_spec(s) is Some {
        fractal_episode_spec(s)
    } else if partial_episode_spec(s) is Some {
        partial_episode_spec(s)
    } else {
        japanese_counter_spec(s)
    }
}

/// The elements found by the keyword-prefix pattern: `s` splits at its first digit into a
/// prefix that, trimmed of delimiters, is a keyword, and the rest. The keyword is recorded
/// (unless it is an episode prefix that is not valid or precedes a fraction); a number rest is
/// recorded as season, episode or volume as the keyword says; any other rest is handed to the
/// other episode patterns (the keyword-prefix one cannot match a rest that starts with a digit),
/// and the match stands whatever they find.
#[verifier::opaque]
pub open spec fn type_episode_spec(d: Seq<char>, s: Seq<char>) -> Option<Seq<ElementView>> {
    let k = choose|k: int| is_type_split(s, k);
    let trim = trimmed(s.subrange(0, k), d);
    if !is_type_split(s, k) || !(0 < k <= s.len()) || trim.len() == 0 {
        None
    } else {
        match keyword_of(trim) {
            None => None,
            Some(kw) => Some(keyword_result(kw, trim, s.subrange(k, s.len() as int))),
        }
    }
}

/// What a keyword prefix `trim` of category and options `kw`, followed by `data`, yields: the
/// keyword (unless it is an episode prefix that is not valid or precedes a fraction), then a
/// number `data` as season, episode or volume as the keyword says, or whatever the other episode
/// patterns find in `data`.
pub open spec fn keyword_result(kw: Keyword, trim: Seq<char>, data: Seq<char>) -> Seq<ElementView> {
    let c = kw.category;
    let suppress = c == Category::EpisodePrefix && (!kw.valid || fractal_spec(data));
    let first = if suppress { Seq::<ElementView>::empty() } else { seq![(c, trim)] };
    if digit_spec(data) {
        first
            + (if c == Category::AnimeSeasonPrefix { seq![(Category::AnimeSeason, data)] } else { Seq::empty() })
            + (if c == Category::EpisodePrefix || c == Category::AnimeType { seq![(Category::EpisodeNumber, data)] } else { Seq::empty() })
            + (if c == Category::VolumePrefix { seq![(Category::VolumeNumber, data)] } else { Seq::empty() })
    } else {
        first + match plain_patterns_spec(data) {
            Some(x) => x,
            None => Seq::empty(),
        }
    }
}

/// On a text that starts with a digit (or is empty), the keyword-prefix pattern cannot match,
/// so every episode pattern answers as the others do.
pub proof fn lemma_digit_first_patterns(d: Seq<char>, s: Seq<char>)
    requires
        is_type_split(s, 0),
    ensures
        type_episode_spec(d, s) is None,
        single_subtoken_spec(d, s) == plain_patterns_spec(s),
{
    reveal(type_episode_spec);
    reveal(single_subtoken_spec);
    reveal(plain_patterns_spec);
    let k = choose|k: int| is_type_split(s, k);
    crate::split::lemma_type_split_unique(s, k, 0);
}

/// An optional element of another category is no element of category `c`.
proof fn lemma_opt_elem_not_of(k: Category, o: Option<Seq<char>>, c: Category)
    requires
        k != c,
    ensures
        none_of(opt_elem(k, o), c),
{
}

/// The patterns other than the keyword-prefix one yield no element that stands for the filename.
proof fn lemma_plain_no_file_name(s: Seq<char>)
    ensures
        plain_patterns_spec(s) matches Some(f) ==> none_of(f, Category::FileName),
{
    let c = Category::FileName;
    reveal(plain_patterns_spec);
    reveal(number_sign_spec);
    reveal(multiple_ep_spec);
    reveal(season_ep_spec);
    reveal(single_ep_spec);
    reveal(fractal_episode_spec);
    reveal(partial_episode_spec);
    reveal(japanese_counter_spec);
    assert forall|o: Option<Seq<char>>, x: Category| x != c implies #[trigger] none_of(opt_elem(x, o), c) by {
        lemma_opt_elem_not_of(x, o, c);
    }
    if exists|k: int| is_first_range_sep(s, k) {
        let k = choose|k: int| is_first_range_sep(s, k);
        assert(multiple_ep_at(s, k) matches Some(f) ==> none_of(f, c));
    }
}

/// No episode pattern yields an element that stands for the filename.
pub proof fn lemma_patterns_no_file_name(d: Seq<char>, s: Seq<char>)
    ensures
        plain_patterns_spec(s) matches Some(f) ==> none_of(f, Category::FileName),
        single_subtoken_spec(d, s) matches Some(f) ==> none_of(f, Category::FileName),
{
    let c = Category::FileName;
    reveal(single_subtoken_spec);
    reveal(plain_patterns_spec);
    reveal(type_episode_spec);
    lemma_plain_no_file_name(s);
    let k = choose|k: int| is_type_split(s, k);
    let trim = trimmed(s.subrange(0, k), d);
    let data = s.subrange(k, s.len() as int);
    lemma_plain_no_file_name(data);
    crate::keyword::lemma_no_file_name_keyword(trim);
    if let Some(kw) = keyword_of(trim) {
        let r = keyword_result(kw, trim, data);
        assert(none_of(r, c));
    }
}

/// Tries every episode pattern on `string_to_parse`, looking keywords up in `m`.
pub fn parse_single_subtoken_with(m: &Manager, delimiter: &[char], string_to_parse: &str, found_elements: &mut Elements) -> (r: bool)
    ensures
        pushed(single_subtoken_spec(delimiter@, string_to_parse@), r, old(found_elements)@, final(found_elements)@),
    decreases string_to_parse@.len(), 1int,
{
    proof {
        use_type_invariant(m);
        reveal(single_subtoken_spec);
    }
    let ghost s = string_to_parse@;
    let ghost d = delimiter@;
    if match_number_sign_patern(string_to_parse, found_elements) {
        return true;
    }
    assert(number_sign_spec(s) is None);
    if match_multiple_ep(string_to_parse, found_elements) {
        return true;
    }
    assert(multiple_ep_spec(s) is None);
    if match_season_ep_patern(string_to_parse, found_elements) {
        return true;
    }
    assert(season_ep_spec(s) is None);
    if match_type_episode_with(m, string_to_parse, found_elements, delimiter) {
        return true;
    }
    assert(type_episode_spec(d, s) is None);
    assert(single_subtoken_spec(d, s) == if single_ep_spec(s) is Some {
        single_ep_spec(s)
    } else if fractal_episode_spec(s) is Some {
        fractal_episode_spec(s)
    } else if partial_episode_spec(s) is Some {
        partial_episode_spec(s)
    } else {
        japanese_counter_spec(s)
    });
    if parse_single_ep(string_to_parse, found_elements) {
        return true;
    }
    if match_fractal_episode(string_to_parse, found_elements) {
        return true;
    }
    if match_partial_episode_pattern(string_to_parse, found_elements) {
        return true;
    }
    if match_japanese_counter(string_to_parse, found_elements) {
        return true;
    }
    false
}

/// Tries every episode pattern on `string_to_parse`; returns `true` if one matched.
pub fn parse_single_subtoken(delimiter: &[char], string_to_parse: &str, found_elements: &mut Elements) -> (r: bool)
    ensures
        pushed(single_subtoken_spec(delimiter@, string_to_parse@), r, old(found_elements)@, final(found_elements)@),
{
    let m = Manager::new();
    parse_single_subtoken_with(&m, delimiter, string_to_parse, found_elements)
}

/// Matches an explicit episode-prefix pattern, looking keywords up in `m`.
pub fn match_type_episode_with(m: &Manager, tested_string: &str, found_elements: &mut Elements, delimiter: &[char]) -> (r: bool)
    ensures
        pushed(type_episode_spec(delimiter@, tested_string@), r, old(found_elements)@, final(found_elements)@),
    decreases tested_string@.len(), 0int,
{
    proof {
        use_type_invariant(m);
        reveal(type_episode_spec);
    }
    let (potential_keyword, data_to_parse) = split_type_and_ep(tested_string);
    let ghost k = choose|k: int| #[trigger] is_type_split(tested_string@, k)
        && potential_keyword@ == tested_string@.subrange(0, k)
        && data_to_parse@ == tested_string@.subrange(k, tested_string@.len() as int);
    proof {
        let k2 = choose|k: int| is_type_split(tested_string@, k);
        crate::split::lemma_type_split_unique(tested_string@, k, k2);
    }
    let pot = chars_of(potential_keyword);
    let trim = trim_chars(&pot, delimiter);
    proof {
        crate::text::lemma_trim_len(pot@, delimiter@);
    }
    if trim.len() == 0 {
        return false;
    }
    let trim_keyword = crate::text::string_of(&trim);
    match m.find(trim_keyword.as_str()) {
        None => false,
        Some(keyword) => {
            proof {
                if data_to_parse@.len() > 0 {
                    assert(data_to_parse@[0] == tested_string@[k]);
                }
                assert(is_type_split(data_to_parse@, 0));
            }
            apply_keyword(m, keyword, trim_keyword.as_str(), data_to_parse, found_elements, delimiter);
            true
        },
    }
}

/// Records what a keyword prefix followed by `data_to_parse` yields.
fn apply_keyword(m: &Manager, keyword: Keyword, trim_keyword: &str, data_to_parse: &str, found_elements: &mut Elements, delimiter: &[char])
    requires
        m@ == crate::keyword::keyword_table(),
        is_type_split(data_to_parse@, 0),
    ensures
        final(found_elements)@ == old(found_elements)@ + keyword_result(keyword, trim_keyword@, data_to_parse@),
    decreases data_to_parse@.len(), 2int,
{
    let tmp_c = keyword.get_category();
    let data = chars_of(data_to_parse);
    let suppress_keyword = tmp_c == Category::EpisodePrefix && (!keyword.is_valid() || is_fractal(&data));
    if !suppress_keyword {
        found_elements.push(tmp_c, trim_keyword);
    }
    let ghost mid = found_elements@;
    if is_digit(data_to_parse) {
        if tmp_c == Category::AnimeSeasonPrefix {
            found_elements.push(Category::AnimeSeason, data_to_parse);
        }
        if tmp_c == Category::EpisodePrefix || tmp_c == Category::AnimeType {
            found_elements.push(Category::EpisodeNumber, data_to_parse);
        }
        if tmp_c == Category::VolumePrefix {
            found_elements.push(Category::VolumeNumber, data_to_parse);
        }
        assert(found_elements@ =~= old(found_elements)@ + keyword_result(keyword, trim_keyword@, data_to_parse@));
        return;
    }
    proof {
        lemma_digit_first_patterns(delimiter@, data_to_parse@);
    }
    parse_single_subtoken_with(m, delimiter, data_to_parse, found_elements);
    assert(found_elements@ =~= old(found_elements)@ + keyword_result(keyword, trim_keyword@, data_to_parse@));
}

/// Matches an explicit episode-prefix pattern (`EP01`, `Episode 7`, `第01話`, …); returns `true` on match.
pub fn match_type_episode(tested_string: &str, found_elements: &mut Elements, delimiter: &[char]) -> (r: bool)
    ensures
        pushed(type_episode_spec(delimiter@, tested_string@), r, old(found_elements)@, final(found_elements)@),
{
    let m = Manager::new();
    match_type_episode_with(&m, tested_string, found_elements, delimiter)
}

} // verus!
