//! The episode-number passes: prefixed patterns, then number pairs, then a bare number.
use vstd::prelude::*;

use crate::elements::{
    Category, Element, ElementView, Elements, first_of, grows, has_category, lemma_grows_append,
    lemma_grows_push, lemma_grows_refl, lemma_grows_trans, lemma_grows_without_first, lemma_of_category_append,
    lemma_of_category_push, lemma_of_category_without_first, of_category, without_first_of,
};
use crate::parsing::episode::parse_single_subtoken;
use crate::parsing::episode::{lemma_patterns_no_file_name, single_subtoken_spec};
use crate::parsing::number::{
    anime_year_spec, contains_digit, contains_digit_spec, digit_spec, is_anime_year, is_digit, parse_i32, parsed_i32,
};
use crate::text::{
    alphabetic, ascii_alpha, char_in, chars_of, contains_seq, is_alphabetic, is_ascii_alpha, join3, occurs_in, slice_of, string_of,
    utf8_len, utf8_len_capped, utf8_len_of,
};
use crate::token::main_token::{
    has_unknown, lemma_token_marked_refl, lemma_tokens_marked_refl, lemma_tokens_marked_trans, mark_sub, mark_tokens, token_marked,
    tokens_marked, tokens_view,
    Token, TokenView,
};
use crate::token::subtoken::SubTokenCategory;

verus! {

/// Tokens `t` are tokens `t0` with some subtokens newly found, and elements `e` extend `e0`.
pub open spec fn progress(t0: Seq<Token>, t: Seq<Token>, e0: Seq<ElementView>, e: Seq<ElementView>) -> bool {
    tokens_marked(tokens_view(t0), tokens_view(t)) && grows(e0, e)
}

/// Subtoken `k` of `t` is unclassified text (not a number).
pub open spec fn is_text_at(t: TokenView, k: int) -> bool {
    t.subs[k].1 == SubTokenCategory::Unknow && !digit_spec(t.subs[k].0)
}

/// Some subtoken of `t` in `from..to` is unclassified text.
pub open spec fn text_in(t: TokenView, from: int, to: int) -> bool {
    exists|k: int| from <= k < to && #[trigger] is_text_at(t, k)
}

/// Subtoken `k` of `t` is an unclassified `-`.
pub open spec fn is_unknown_dash(t: TokenView, k: int) -> bool {
    t.subs[k].1 == SubTokenCategory::Unknow && t.subs[k].0 == seq!['-']
}

/// Whether subtoken `k` is found.
pub open spec fn is_found(s: (Seq<char>, SubTokenCategory)) -> bool {
    s.1 == SubTokenCategory::Found
}

/// The number of found subtokens in `subs`.
pub open spec fn found_in(subs: Seq<(Seq<char>, SubTokenCategory)>) -> nat
    decreases subs.len(),
{
    if subs.len() == 0 {
        0
    } else {
        found_in(subs.drop_last()) + if is_found(subs.last()) { 1nat } else { 0nat }
    }
}

/// The number of found subtokens of `t` in `from..to`.
pub open spec fn found_count(t: TokenView, from: int, to: int) -> nat {
    found_in(t.subs.subrange(from, to))
}

/// Whether some subtoken of `token` in `from..to` is unclassified text.
fn has_text_in(token: &Token, from: usize, to: usize) -> (r: bool)
    requires
        from <= to <= token@.subs.len(),
    ensures
        r == text_in(token@, from as int, to as int),
{
    let mut k = from;
    while k < to
        invariant
            from <= k <= to,
            to <= token@.subs.len(),
            forall|j: int| from <= j < k ==> !#[trigger] is_text_at(token@, j),
        decreases to - k,
    {
        if token.sub_is(k, SubTokenCategory::Unknow) && !is_digit(token.sub_value(k)) {
            assert(is_text_at(token@, k as int));
            return true;
        }
        k = k + 1;
    }
    false
}

/// Whether subtoken `k` of `token` is an unclassified `-`.
fn unknown_dash(token: &Token, k: usize) -> (r: bool)
    requires
        k < token@.subs.len(),
    ensures
        r == is_unknown_dash(token@, k as int),
{
    let v = chars_of(token.sub_value(k));
    let r = token.sub_is(k, SubTokenCategory::Unknow) && v.len() == 1 && v[0] == '-';
    proof {
        if v@.len() == 1 && v@[0] == '-' {
            assert(v@ =~= seq!['-']);
        }
    }
    r
}

/// The number of found subtokens of `token` in `from..to`.
fn count_found(token: &Token, from: usize, to: usize) -> (r: usize)
    requires
        from <= to <= token@.subs.len(),
    ensures
        r == found_count(token@, from as int, to as int),
{
    let mut k = from;
    let mut count: usize = 0;
    while k < to
        invariant
            from <= k <= to,
            to <= token@.subs.len(),
            count == found_count(token@, from as int, k as int),
            count <= k - from,
        decreases to - k,
    {
        let ghost subs = token@.subs;
        assert(subs.subrange(from as int, k + 1).drop_last() =~= subs.subrange(from as int, k as int));
        if token.sub_is(k, SubTokenCategory::Found) {
            count = count + 1;
        }
        k = k + 1;
    }
    count
}

/// The state the episode-number passes work on: the tokens and the elements found so far.
pub type PassState = (Seq<TokenView>, Seq<ElementView>);

/// Classifies subtoken `si` of token `ti` as found, keeping track of the tokens the pass started from.
fn mark_at(tokens: &mut Vec<Token>, ti: usize, si: usize, Ghost(t0): Ghost<Seq<Token>>)
    requires
        tokens_marked(tokens_view(t0), tokens_view(old(tokens)@)),
        ti < t0.len(),
        si < t0[ti as int]@.subs.len(),
    ensures
        tokens_marked(tokens_view(t0), tokens_view(final(tokens)@)),
        tokens_view(final(tokens)@) == mark_tokens(tokens_view(old(tokens)@), ti as int, si as int),
{
    let ghost before = tokens@;
    assert(token_marked(tokens_view(t0)[ti as int], tokens_view(before)[ti as int]));
    mark_sub(tokens, ti, si);
    proof {
        lemma_tokens_marked_trans(tokens_view(t0), tokens_view(before), tokens_view(tokens@));
    }
}

/// Appends an element, keeping track of the collection the pass started from.
fn push_at(elements: &mut Elements, c: Category, v: &str, Ghost(e0): Ghost<Seq<ElementView>>)
    requires
        grows(e0, old(elements)@),
    ensures
        grows(e0, final(elements)@),
        final(elements)@ == old(elements)@.push((c, v@)),
{
    let ghost before = elements@;
    elements.push(c, v);
    proof {
        lemma_grows_push(e0, before, (c, v@));
    }
}

/// Token `ti` of `tokens` has as many subtokens as in `t0`.
proof fn lemma_same_len(t0: Seq<Token>, t: Seq<Token>, ti: int)
    requires
        tokens_marked(tokens_view(t0), tokens_view(t)),
        0 <= ti < t0.len(),
    ensures
        t.len() == t0.len(),
        t[ti]@.subs.len() == t0[ti]@.subs.len(),
        t[ti]@.raw == t0[ti]@.raw,
        t[ti]@.inside == t0[ti]@.inside,
{
    assert(token_marked(tokens_view(t0)[ti], tokens_view(t)[ti]));
}

// ── first pass: subtokens that mix letters and digits ────────────────────────

/// The text tried at subtoken `si` of `t`, and whether the next subtoken is joined to it: a
/// following number is joined when the raw token writes the two as `A.B` or `A-B`.
pub open spec fn lookahead(t: TokenView, si: int) -> (Seq<char>, bool) {
    let val = t.subs[si].0;
    if si + 1 < t.subs.len() && digit_spec(t.subs[si + 1].0) && t.subs[si + 1].1 != SubTokenCategory::Found {
        let next = t.subs[si + 1].0;
        if occurs_in(t.raw, val.push('.') + next) {
            (val.push('.') + next, true)
        } else if occurs_in(t.raw, val.push('-') + next) {
            (val.push('-') + next, true)
        } else {
            (val, false)
        }
    } else {
        (val, false)
    }
}

/// The end of a `#N-M` range after subtoken `si` of `t`: its text, its position, and whether
/// a lone `-` subtoken stands between.
pub open spec fn sign_range_end(t: TokenView, si: int, to_parse: Seq<char>) -> Option<(Seq<char>, int, bool)> {
    let m = t.subs.len();
    if si + 1 >= m {
        None
    } else {
        let next = t.subs[si + 1];
        if digit_spec(next.0) && next.1 != SubTokenCategory::Found {
            if occurs_in(t.raw, to_parse.push('-') + next.0) {
                Some((next.0, si + 1, false))
            } else {
                None
            }
        } else if next.0 == seq!['-'] && next.1 != SubTokenCategory::Found {
            if si + 2 < m && digit_spec(t.subs[si + 2].0) && t.subs[si + 2].1 != SubTokenCategory::Found
                && occurs_in(t.raw, to_parse.push('-') + t.subs[si + 2].0) {
                Some((t.subs[si + 2].0, si + 2, true))
            } else {
                None
            }
        } else {
            None
        }
    }
}

/// After a `#N` match at subtoken `si` of token `ti`: a larger `M` in a `#N-M` range is
/// recorded as a second episode number.
pub open spec fn sign_range_spec(ts: Seq<TokenView>, e: Seq<ElementView>, ti: int, si: int, to_parse: Seq<char>) -> PassState {
    let n1 = parse_or(to_parse.subrange(1, to_parse.len() as int), -1);
    match sign_range_end(ts[ti], si, to_parse) {
        Some(found) => {
            let v = found.0;
            if v.len() > 0 && n1 >= 0 && parse_or(v, -1) > n1 {
                let ts1 = mark_tokens(ts, ti, found.1);
                (if found.2 { mark_tokens(ts1, ti, si + 1) } else { ts1 }, e.push((Category::EpisodeNumber, v)))
            } else {
                (ts, e)
            }
        },
        None => (ts, e),
    }
}

/// The first pass at subtoken `si` of token `ti`: a subtoken that mixes letters and digits
/// (joined with the next number, see `lookahead`) is tried against every episode pattern. On a
/// match it is marked found, unless it starts with a letter and no episode prefix was recorded.
pub open spec fn prefixed_step(d: Seq<char>, ts: Seq<TokenView>, e: Seq<ElementView>, ti: int, si: int) -> PassState {
    let t = ts[ti];
    let val = t.subs[si].0;
    if t.subs[si].1 == SubTokenCategory::Found {
        (ts, e)
    } else if val.len() == 0 {
        (mark_tokens(ts, ti, si), e)
    } else if digit_spec(val) || !contains_digit_spec(val) {
        (ts, e)
    } else {
        let la = lookahead(t, si);
        let to_parse = la.0;
        let skip_next = la.1;
        match single_subtoken_spec(d, to_parse) {
            None => (ts, e),
            Some(found) => {
                let e1 = e + found;
                let starts_with_alpha = to_parse.len() > 0 && is_ascii_alpha(to_parse[0]);
                let prefix_added = of_category(e1, Category::EpisodePrefix).len() > of_category(
                    e,
                    Category::EpisodePrefix,
                ).len();
                let ts1 = if !starts_with_alpha || prefix_added { mark_tokens(ts, ti, si) } else { ts };
                let ts2 = if skip_next { mark_tokens(ts1, ti, si + 1) } else { ts1 };
                if !skip_next && to_parse.len() > 0 && to_parse[0] == '#' {
                    sign_range_spec(ts2, e1, ti, si, to_parse)
                } else {
                    (ts2, e1)
                }
            },
        }
    }
}

/// The first pass over subtokens `si..m` of token `ti`.
pub open spec fn prefixed_token(d: Seq<char>, ts: Seq<TokenView>, e: Seq<ElementView>, ti: int, si: int, m: int) -> PassState
    decreases m - si,
{
    if si >= m {
        (ts, e)
    } else {
        let next = prefixed_step(d, ts, e, ti, si);
        prefixed_token(d, next.0, next.1, ti, si + 1, m)
    }
}

/// The first pass over tokens `ti..n`; tokens with no unclassified subtoken are skipped.
pub open spec fn prefixed_pass_spec(d: Seq<char>, ts: Seq<TokenView>, e: Seq<ElementView>, ti: int, n: int) -> PassState
    decreases n - ti,
{
    if ti >= n {
        (ts, e)
    } else {
        let next = if has_unknown(ts[ti]) {
            prefixed_token(d, ts, e, ti, 0, ts[ti].subs.len() as int)
        } else {
            (ts, e)
        };
        prefixed_pass_spec(d, next.0, next.1, ti + 1, n)
    }
}

/// After a `#N` match, records the end of a `#N-M` range written in the raw token.
fn number_sign_range(
    tokens: &mut Vec<Token>,
    ti: usize,
    si: usize,
    raw: &Vec<char>,
    to_parse: &Vec<char>,
    elements: &mut Elements,
    Ghost(t0): Ghost<Seq<Token>>,
    Ghost(e0): Ghost<Seq<ElementView>>,
)
    requires
        progress(t0, old(tokens)@, e0, old(elements)@),
        ti < t0.len(),
        si < t0[ti as int]@.subs.len(),
        raw@ == t0[ti as int]@.raw,
        to_parse@.len() > 0,
    ensures
        progress(t0, final(tokens)@, e0, final(elements)@),
        (tokens_view(final(tokens)@), final(elements)@) == sign_range_spec(
            tokens_view(old(tokens)@),
            old(elements)@,
            ti as int,
            si as int,
            to_parse@,
        ),
{
    proof {
        lemma_same_len(t0, tokens@, ti as int);
    }
    let ghost ts = tokens_view(tokens@);
    let ghost t = ts[ti as int];
    let m = tokens[ti].len();
    let rest = string_of(&slice_of(to_parse, 1, to_parse.len()));
    let n1: i32 = parse_or_else(rest.as_str(), -1);
    if m - si <= 1 {
        return;
    }
    let next = chars_of(tokens[ti].sub_value(si + 1));
    let next_s = string_of(&next);
    let next_found = tokens[ti].sub_is(si + 1, SubTokenCategory::Found);
    let mut ep2: Option<(Vec<char>, usize)> = None;
    let mut dash: bool = false;
    if is_digit(next_s.as_str()) && !next_found {
        let rc = join3(to_parse, '-', &next);
        if contains_seq(raw, &rc) {
            ep2 = Some((next, si + 1));
        }
    } else if next.len() == 1 && next[0] == '-' && !next_found {
        assert(next@ =~= seq!['-']);
        if m - si > 2 {
            let after = chars_of(tokens[ti].sub_value(si + 2));
            let after_s = string_of(&after);
            if is_digit(after_s.as_str()) && !tokens[ti].sub_is(si + 2, SubTokenCategory::Found) {
                let rc = join3(to_parse, '-', &after);
                if contains_seq(raw, &rc) {
                    ep2 = Some((after, si + 2));
                    dash = true;
                }
            }
        }
    } else {
        assert(next@ != seq!['-'] || next_found) by {
            if next@ == seq!['-'] {
                assert(next@.len() == 1 && next@[0] == '-');
            }
        }
    }
    assert(match sign_range_end(t, si as int, to_parse@) {
        Some(found) => ep2 matches Some(x) && x.0@ == found.0 && x.1 == found.1 && dash == found.2,
        None => ep2 is None,
    });
    if let Some((ep2_val, ep2_idx)) = ep2 {
        if ep2_val.len() > 0 {
            let ep2_s = string_of(&ep2_val);
            let n2: i32 = parse_or_else(ep2_s.as_str(), -1);
            if n1 >= 0 && n2 > n1 {
                push_at(elements, Category::EpisodeNumber, ep2_s.as_str(), Ghost(e0));
                mark_at(tokens, ti, ep2_idx, Ghost(t0));
                if dash {
                    mark_at(tokens, ti, si + 1, Ghost(t0));
                }
            }
        }
    }
}

/// The first pass on subtoken `si` of token `ti` (see `prefixed_step`).
fn prefixed_subtoken(
    delimiter: &[char],
    tokens: &mut Vec<Token>,
    ti: usize,
    si: usize,
    raw: &Vec<char>,
    elements: &mut Elements,
    Ghost(t0): Ghost<Seq<Token>>,
    Ghost(e0): Ghost<Seq<ElementView>>,
)
    requires
        progress(t0, old(tokens)@, e0, old(elements)@),
        ti < t0.len(),
        si < t0[ti as int]@.subs.len(),
        raw@ == t0[ti as int]@.raw,
    ensures
        progress(t0, final(tokens)@, e0, final(elements)@),
        (tokens_view(final(tokens)@), final(elements)@) == prefixed_step(
            delimiter@,
            tokens_view(old(tokens)@),
            old(elements)@,
            ti as int,
            si as int,
        ),
{
    proof {
        lemma_same_len(t0, tokens@, ti as int);
    }
    let ghost ts = tokens_view(tokens@);
    let ghost t = ts[ti as int];
    let m = tokens[ti].len();
    if tokens[ti].sub_is(si, SubTokenCategory::Found) {
        return;
    }
    let val = chars_of(tokens[ti].sub_value(si));
    if val.len() == 0 {
        mark_at(tokens, ti, si, Ghost(t0));
        return;
    }
    let val_s = string_of(&val);
    if is_digit(val_s.as_str()) || !contains_digit(val_s.as_str()) {
        return;
    }
    let mut to_parse = chars_of(val_s.as_str());
    let mut skip_next = false;
    if m - si > 1 {
        let next = chars_of(tokens[ti].sub_value(si + 1));
        let next_s = string_of(&next);
        if is_digit(next_s.as_str()) && !tokens[ti].sub_is(si + 1, SubTokenCategory::Found) {
            let dot = join3(&val, '.', &next);
            let dash = join3(&val, '-', &next);
            if contains_seq(raw, &dot) {
                to_parse = dot;
                skip_next = true;
            } else if contains_seq(raw, &dash) {
                to_parse = dash;
                skip_next = true;
            }
        }
    }
    assert(lookahead(t, si as int) == (to_parse@, skip_next));
    let to_parse_s = string_of(&to_parse);
    let prefixes_before = elements.count_of(Category::EpisodePrefix);
    let ghost eb = elements@;
    if parse_single_subtoken(delimiter, to_parse_s.as_str(), elements) {
        proof {
            let added = choose|x: Seq<ElementView>| elements@ == eb + x;
            lemma_grows_append(eb, added);
            lemma_grows_trans(e0, eb, elements@);
        }
        let starts_with_alpha = to_parse.len() > 0 && ascii_alpha(to_parse[0]);
        let prefix_added = elements.count_of(Category::EpisodePrefix) > prefixes_before;
        if !starts_with_alpha || prefix_added {
            mark_at(tokens, ti, si, Ghost(t0));
        }
        if skip_next {
            mark_at(tokens, ti, si + 1, Ghost(t0));
        }
        if !skip_next && to_parse.len() > 0 && to_parse[0] == '#' {
            number_sign_range(tokens, ti, si, raw, &to_parse, elements, Ghost(t0), Ghost(e0));
        }
    } else {
        assert(elements@ == eb);
    }
}

/// The first pass over all tokens.
fn prefixed_pass(delimiter: &[char], tokens: &mut Vec<Token>, elements: &mut Elements)
    ensures
        progress(old(tokens)@, final(tokens)@, old(elements)@, final(elements)@),
        (tokens_view(final(tokens)@), final(elements)@) == prefixed_pass_spec(
            delimiter@,
            tokens_view(old(tokens)@),
            old(elements)@,
            0,
            old(tokens)@.len() as int,
        ),
{
    let ghost t0 = tokens@;
    let ghost e0 = elements@;
    let ghost total = prefixed_pass_spec(delimiter@, tokens_view(t0), e0, 0, t0.len() as int);
    proof {
        lemma_tokens_marked_refl(tokens_view(t0));
        lemma_grows_refl(e0);
    }
    let n = tokens.len();
    let mut ti: usize = 0;
    while ti < n
        invariant
            n == t0.len(),
            0 <= ti <= n,
            progress(t0, tokens@, e0, elements@),
            total == prefixed_pass_spec(delimiter@, tokens_view(tokens@), elements@, ti as int, n as int),
        decreases n - ti,
    {
        proof {
            lemma_same_len(t0, tokens@, ti as int);
        }
        if tokens[ti].contains_unknow() {
            let raw = chars_of(tokens[ti].raw_token());
            let m = tokens[ti].len();
            let mut si: usize = 0;
            while si < m
                invariant
                    n == t0.len(),
                    ti < n,
                    m == t0[ti as int]@.subs.len(),
                    raw@ == t0[ti as int]@.raw,
                    0 <= si <= m,
                    progress(t0, tokens@, e0, elements@),
                    total == ({
                        let rest = prefixed_token(delimiter@, tokens_view(tokens@), elements@, ti as int, si as int, m as int);
                        prefixed_pass_spec(delimiter@, rest.0, rest.1, ti + 1, n as int)
                    }),
                decreases m - si,
            {
                prefixed_subtoken(delimiter, tokens, ti, si, &raw, elements, Ghost(t0), Ghost(e0));
                si = si + 1;
            }
        }
        ti = ti + 1;
    }
}

// ── second pass: a pair of numbers ───────────────────────────────────────────

/// The second pass at subtoken `index` of token `ti`, when it records something: a decimal
/// episode (`7.5`) written in the raw token (unless text stands on both sides and no `-` before
/// it), a range of two increasing numbers, `N of M` (the episode is `N`), or `N` and a larger
/// `M` across a one-byte delimiter (the episode is `M`).
pub open spec fn pair_step(d: Seq<char>, ts: Seq<TokenView>, e: Seq<ElementView>, ti: int, index: int) -> Option<PassState> {
    let t = ts[ti];
    let m = t.subs.len() as int;
    let tested = t.subs[index].0;
    let next = t.subs[index + 1].0;
    let third = t.subs[index + 2].0;
    let middle = t.subs[index + 1].0;
    if !digit_spec(tested) {
        None
    } else if index + 1 < m && digit_spec(next) && occurs_in(t.raw, tested.push('.') + next) {
        if !text_in(t, 0, index) || !text_in(t, index + 2, m) || (index > 0 && is_unknown_dash(t, index - 1)) {
            Some((mark_tokens(mark_tokens(ts, ti, index), ti, index + 1), e.push((Category::EpisodeNumber, tested.push('.') + next))))
        } else {
            None
        }
    } else if index + 1 < m && digit_spec(next) && parsed_i32(tested) is Some && parsed_i32(next) is Some
        && parse_or(tested, 0) < parse_or(next, 0) {
        Some((mark_tokens(mark_tokens(ts, ti, index), ti, index + 1), e.push((Category::EpisodeNumber, tested)).push((Category::EpisodeNumber, next))))
    } else if index + 2 < m && digit_spec(third) && middle.len() > 0 && parsed_i32(tested) is Some
        && parsed_i32(third) is Some {
        if middle.len() == 2 && middle[0] == 'o' && middle[1] == 'f' && parse_or(tested, 0) < parse_or(third, 0) {
            Some((mark_tokens(mark_tokens(mark_tokens(ts, ti, index), ti, index + 1), ti, index + 2), e.push((Category::EpisodeNumber, tested))))
        } else if d.contains(middle[0]) && utf8_len(middle) == 1 && parse_or(tested, 0) < parse_or(third, 0) {
            Some((mark_tokens(mark_tokens(ts, ti, index + 1), ti, index + 2), e.push((Category::EpisodeNumber, third))))
        } else {
            None
        }
    } else {
        None
    }
}

/// The first subtoken from `index` on of token `ti` at which the second pass records something.
pub open spec fn pair_token(d: Seq<char>, ts: Seq<TokenView>, e: Seq<ElementView>, ti: int, index: int, m: int) -> Option<PassState>
    decreases m - index,
{
    if index >= m {
        None
    } else {
        match pair_step(d, ts, e, ti, index) {
            Some(r) => Some(r),
            None => pair_token(d, ts, e, ti, index + 1, m),
        }
    }
}

/// The second pass over tokens `ti..n`: the first record it makes, if any.
pub open spec fn pair_pass_spec(d: Seq<char>, ts: Seq<TokenView>, e: Seq<ElementView>, ti: int, n: int) -> PassState
    decreases n - ti,
{
    if ti >= n {
        (ts, e)
    } else {
        match if has_unknown(ts[ti]) { pair_token(d, ts, e, ti, 0, ts[ti].subs.len() as int) } else { None } {
            Some(r) => r,
            None => pair_pass_spec(d, ts, e, ti + 1, n),
        }
    }
}

/// The second pass at subtoken `index` of token `ti` (see `pair_step`); says whether it
/// recorded something.
fn number_pair_at(
    delimiter: &[char],
    tokens: &mut Vec<Token>,
    ti: usize,
    index: usize,
    raw: &Vec<char>,
    elements: &mut Elements,
    Ghost(t0): Ghost<Seq<Token>>,
    Ghost(e0): Ghost<Seq<ElementView>>,
) -> (done: bool)
    requires
        progress(t0, old(tokens)@, e0, old(elements)@),
        ti < t0.len(),
        index < t0[ti as int]@.subs.len(),
        raw@ == t0[ti as int]@.raw,
    ensures
        progress(t0, final(tokens)@, e0, final(elements)@),
        match pair_step(delimiter@, tokens_view(old(tokens)@), old(elements)@, ti as int, index as int) {
            Some(r) => done && (tokens_view(final(tokens)@), final(elements)@) == r,
            None => !done && final(tokens)@ == old(tokens)@ && final(elements)@ == old(elements)@,
        },
{
    proof {
        lemma_same_len(t0, tokens@, ti as int);
    }
    let m = tokens[ti].len();
    let tested = chars_of(tokens[ti].sub_value(index));
    let tested_s = string_of(&tested);
    if !is_digit(tested_s.as_str()) {
        return false;
    }
    if m - index > 1 {
        let next = chars_of(tokens[ti].sub_value(index + 1));
        let next_s = string_of(&next);
        if is_digit(next_s.as_str()) {
            let fractal = join3(&tested, '.', &next);
            if contains_seq(raw, &fractal) {
                let text_before = has_text_in(&tokens[ti], 0, index);
                let text_after = has_text_in(&tokens[ti], index + 2, m);
                let preceded_by_dash = index > 0 && unknown_dash(&tokens[ti], index - 1);
                if !text_before || !text_after || preceded_by_dash {
                    mark_at(tokens, ti, index, Ghost(t0));
                    mark_at(tokens, ti, index + 1, Ghost(t0));
                    let fractal_s = string_of(&fractal);
                    push_at(elements, Category::EpisodeNumber, fractal_s.as_str(), Ghost(e0));
                    return true;
                }
                return false;
            }
            let left = parse_i32(tested_s.as_str());
            let right = parse_i32(next_s.as_str());
            if let (Some(l), Some(r)) = (left, right) {
                if l < r {
                    mark_at(tokens, ti, index, Ghost(t0));
                    mark_at(tokens, ti, index + 1, Ghost(t0));
                    push_at(elements, Category::EpisodeNumber, tested_s.as_str(), Ghost(e0));
                    push_at(elements, Category::EpisodeNumber, next_s.as_str(), Ghost(e0));
                    return true;
                }
            }
        }
    }
    if m - index > 2 {
        let third = string_of(&chars_of(tokens[ti].sub_value(index + 2)));
        if is_digit(third.as_str()) {
            let middle = chars_of(tokens[ti].sub_value(index + 1));
            if middle.len() == 0 {
                return false;
            }
            let left = parse_i32(tested_s.as_str());
            let right = parse_i32(third.as_str());
            if let (Some(l), Some(r)) = (left, right) {
                let is_of = middle.len() == 2 && middle[0] == 'o' && middle[1] == 'f';
                if is_of && l < r {
                    mark_at(tokens, ti, index, Ghost(t0));
                    mark_at(tokens, ti, index + 1, Ghost(t0));
                    mark_at(tokens, ti, index + 2, Ghost(t0));
                    push_at(elements, Category::EpisodeNumber, tested_s.as_str(), Ghost(e0));
                    return true;
                }
                if char_in(delimiter, middle[0]) && utf8_len_capped(&middle, 1) == 1 && l < r {
                    mark_at(tokens, ti, index + 1, Ghost(t0));
                    mark_at(tokens, ti, index + 2, Ghost(t0));
                    push_at(elements, Category::EpisodeNumber, third.as_str(), Ghost(e0));
                    return true;
                }
            }
        }
    }
    false
}

/// The second pass over all tokens; stops at the first pair it records.
fn number_pair_pass(delimiter: &[char], tokens: &mut Vec<Token>, elements: &mut Elements)
    ensures
        progress(old(tokens)@, final(tokens)@, old(elements)@, final(elements)@),
        (tokens_view(final(tokens)@), final(elements)@) == pair_pass_spec(
            delimiter@,
            tokens_view(old(tokens)@),
            old(elements)@,
            0,
            old(tokens)@.len() as int,
        ),
{
    let ghost t0 = tokens@;
    let ghost e0 = elements@;
    let ghost d = delimiter@;
    proof {
        lemma_tokens_marked_refl(tokens_view(t0));
        lemma_grows_refl(e0);
    }
    let n = tokens.len();
    let mut ti: usize = 0;
    while ti < n
        invariant
            n == t0.len(),
            0 <= ti <= n,
            tokens@ == t0,
            elements@ == e0,
            t0 == old(tokens)@,
            e0 == old(elements)@,
            d == delimiter@,
            progress(t0, tokens@, e0, elements@),
            pair_pass_spec(d, tokens_view(t0), e0, 0, n as int) == pair_pass_spec(d, tokens_view(t0), e0, ti as int, n as int),
        decreases n - ti,
    {
        if tokens[ti].contains_unknow() {
            let raw = chars_of(tokens[ti].raw_token());
            let m = tokens[ti].len();
            let mut index: usize = 0;
            while index < m
                invariant
                    n == t0.len(),
                    ti < n,
                    m == t0[ti as int]@.subs.len(),
                    raw@ == t0[ti as int]@.raw,
                    0 <= index <= m,
                    tokens@ == t0,
                    elements@ == e0,
                    t0 == old(tokens)@,
                    e0 == old(elements)@,
                    d == delimiter@,
                    progress(t0, tokens@, e0, elements@),
                    has_unknown(tokens_view(t0)[ti as int]),
                    pair_pass_spec(d, tokens_view(t0), e0, 0, n as int) == pair_pass_spec(d, tokens_view(t0), e0, ti as int, n as int),
                    pair_token(d, tokens_view(t0), e0, ti as int, 0, m as int) == pair_token(d, tokens_view(t0), e0, ti as int, index as int, m as int),
                decreases m - index,
            {
                if number_pair_at(delimiter, tokens, ti, index, &raw, elements, Ghost(t0), Ghost(e0)) {
                    return;
                }
                index = index + 1;
            }
        }
        ti = ti + 1;
    }
}

// ── third pass: a bare number ────────────────────────────────────────────────

/// What the third pass does at one subtoken.
enum BareStep {
    /// An episode number was recorded.
    Done,
    /// Go on with the next subtoken.
    Next,
    /// Skip the next subtoken too (it is the decimal part of this one).
    SkipTwo,
}

/// Subtoken `si` of `t` is a number whose decimal part, the next subtoken, the raw token holds.
pub open spec fn decimal_at(t: TokenView, si: int) -> bool {
    &&& si + 1 < t.subs.len()
    &&& digit_spec(t.subs[si + 1].0)
    &&& t.subs[si + 1].1 != SubTokenCategory::Found
    &&& occurs_in(t.raw, t.subs[si].0.push('.') + t.subs[si + 1].0)
}

/// The surroundings of number `si` of `t` say it is not the episode: outside brackets, text on
/// both sides with fewer than two found subtokens after it (or it is a year), or text after it
/// at the start (unless a `-` stands next to it); inside brackets, a word right before it; or
/// it is the one-byte decimal part of the text before it.
pub open spec fn bare_rejected(t: TokenView, si: int) -> bool {
    let m = t.subs.len() as int;
    let tested = t.subs[si].0;
    let prev = t.subs[si - 1].0;
    let preceded_by_dash = si > 0 && is_unknown_dash(t, si - 1);
    let followed_by_dash_then_text = si + 1 < m && is_unknown_dash(t, si + 1) && text_in(t, si + 2, m);
    let text_before = si > 0 && text_in(t, 0, si);
    let text_after = text_in(t, si + 1, m);
    ||| !t.inside && !preceded_by_dash && !followed_by_dash_then_text && text_before && text_after
        && (found_count(t, si + 1, m) < 2 || anime_year_spec(tested))
    ||| !t.inside && !preceded_by_dash && !followed_by_dash_then_text && si == 0 && text_after
    ||| t.inside && si > 0 && t.subs[si - 1].1 != SubTokenCategory::Found && prev.len() > 0 && alphabetic(prev.last())
    ||| utf8_len(tested) == 1 && si >= 1 && !digit_spec(prev) && t.subs[si - 1].1 == SubTokenCategory::Unknow
        && occurs_in(t.raw, prev.push('.') + tested)
}

/// The third pass over subtokens `si..m` of token `ti`: the first bare number it takes.
pub open spec fn bare_token(ts: Seq<TokenView>, e: Seq<ElementView>, ti: int, si: int, m: int) -> Option<PassState>
    decreases m - si,
{
    let t = ts[ti];
    if si >= m {
        None
    } else if t.subs[si].1 == SubTokenCategory::Found || !digit_spec(t.subs[si].0) {
        bare_token(ts, e, ti, si + 1, m)
    } else if decimal_at(t, si) {
        bare_token(ts, e, ti, if si + 1 < m { si + 2 } else { m }, m)
    } else if bare_rejected(t, si) {
        bare_token(ts, e, ti, si + 1, m)
    } else {
        Some((mark_tokens(ts, ti, si), e.push((Category::EpisodeNumber, t.subs[si].0))))
    }
}

/// The third pass over tokens `ti..n`: the first bare number it takes, if any.
pub open spec fn bare_pass_spec(ts: Seq<TokenView>, e: Seq<ElementView>, ti: int, n: int) -> PassState
    decreases n - ti,
{
    if ti >= n {
        (ts, e)
    } else {
        match if has_unknown(ts[ti]) { bare_token(ts, e, ti, 0, ts[ti].subs.len() as int) } else { None } {
            Some(r) => r,
            None => bare_pass_spec(ts, e, ti + 1, n),
        }
    }
}

/// The third pass at subtoken `si` of token `ti`: takes a lone number as the episode number,
/// unless its surroundings say it belongs to the title or to something else.
fn bare_number_at(
    tokens: &mut Vec<Token>,
    ti: usize,
    si: usize,
    is_bracket: bool,
    raw: &Vec<char>,
    elements: &mut Elements,
    Ghost(t0): Ghost<Seq<Token>>,
    Ghost(e0): Ghost<Seq<ElementView>>,
) -> (step: BareStep)
    requires
        progress(t0, old(tokens)@, e0, old(elements)@),
        ti < t0.len(),
        si < t0[ti as int]@.subs.len(),
        raw@ == t0[ti as int]@.raw,
        is_bracket == t0[ti as int]@.inside,
    ensures
        progress(t0, final(tokens)@, e0, final(elements)@),
        ({
            let t = tokens_view(old(tokens)@)[ti as int];
            match step {
                BareStep::Next => (t.subs[si as int].1 == SubTokenCategory::Found || !digit_spec(t.subs[si as int].0)
                    || (!decimal_at(t, si as int) && bare_rejected(t, si as int)))
                    && final(tokens)@ == old(tokens)@ && final(elements)@ == old(elements)@,
                BareStep::SkipTwo => t.subs[si as int].1 != SubTokenCategory::Found && digit_spec(t.subs[si as int].0)
                    && decimal_at(t, si as int) && final(tokens)@ == old(tokens)@ && final(elements)@ == old(elements)@,
                BareStep::Done => t.subs[si as int].1 != SubTokenCategory::Found && digit_spec(t.subs[si as int].0)
                    && !decimal_at(t, si as int) && !bare_rejected(t, si as int)
                    && tokens_view(final(tokens)@) == mark_tokens(tokens_view(old(tokens)@), ti as int, si as int)
                    && final(elements)@ == old(elements)@.push((Category::EpisodeNumber, t.subs[si as int].0)),
            }
        }),
{
    proof {
        lemma_same_len(t0, tokens@, ti as int);
    }
    let m = tokens[ti].len();
    let tested = chars_of(tokens[ti].sub_value(si));
    let tested_s = string_of(&tested);
    if tokens[ti].sub_is(si, SubTokenCategory::Found) || !is_digit(tested_s.as_str()) {
        return BareStep::Next;
    }
    if m - si > 1 {
        let next = chars_of(tokens[ti].sub_value(si + 1));
        let next_s = string_of(&next);
        if is_digit(next_s.as_str()) && !tokens[ti].sub_is(si + 1, SubTokenCategory::Found) {
            let fractal = join3(&tested, '.', &next);
            if contains_seq(raw, &fractal) {
                return BareStep::SkipTwo;
            }
        }
    }
    if !is_bracket {
        let preceded_by_dash = si > 0 && unknown_dash(&tokens[ti], si - 1);
        if !preceded_by_dash {
            let followed_by_dash_then_text = m - si > 1 && unknown_dash(&tokens[ti], si + 1)
                && has_text_in(&tokens[ti], si + 2, m);
            if !followed_by_dash_then_text {
                let text_before = si > 0 && has_text_in(&tokens[ti], 0, si);
                let text_after = has_text_in(&tokens[ti], si + 1, m);
                if text_before && text_after {
                    let found_after = count_found(&tokens[ti], si + 1, m);
                    if found_after < 2 || is_anime_year(tested_s.as_str()) {
                        return BareStep::Next;
                    }
                }
                if si == 0 && text_after {
                    return BareStep::Next;
                }
            }
        }
    }
    if is_bracket && si > 0 && !tokens[ti].sub_is(si - 1, SubTokenCategory::Found) {
        let prev = chars_of(tokens[ti].sub_value(si - 1));
        if prev.len() > 0 && is_alphabetic(prev[prev.len() - 1]) {
            return BareStep::Next;
        }
    }
    if utf8_len_capped(&tested, 1) == 1 && si >= 1 {
        let prev = chars_of(tokens[ti].sub_value(si - 1));
        let prev_s = string_of(&prev);
        if !is_digit(prev_s.as_str()) && tokens[ti].sub_is(si - 1, SubTokenCategory::Unknow) {
            let compound = join3(&prev, '.', &tested);
            if contains_seq(raw, &compound) {
                return BareStep::Next;
            }
        }
    }
    mark_at(tokens, ti, si, Ghost(t0));
    push_at(elements, Category::EpisodeNumber, tested_s.as_str(), Ghost(e0));
    BareStep::Done
}

/// The third pass over all tokens; stops at the first number it records.
fn bare_number_pass(tokens: &mut Vec<Token>, elements: &mut Elements)
    ensures
        progress(old(tokens)@, final(tokens)@, old(elements)@, final(elements)@),
        (tokens_view(final(tokens)@), final(elements)@) == bare_pass_spec(
            tokens_view(old(tokens)@),
            old(elements)@,
            0,
            old(tokens)@.len() as int,
        ),
{
    let ghost t0 = tokens@;
    let ghost e0 = elements@;
    proof {
        lemma_tokens_marked_refl(tokens_view(t0));
        lemma_grows_refl(e0);
    }
    let n = tokens.len();
    let mut ti: usize = 0;
    while ti < n
        invariant
            n == t0.len(),
            0 <= ti <= n,
            tokens@ == t0,
            elements@ == e0,
            t0 == old(tokens)@,
            e0 == old(elements)@,
            progress(t0, tokens@, e0, elements@),
            bare_pass_spec(tokens_view(t0), e0, 0, n as int) == bare_pass_spec(tokens_view(t0), e0, ti as int, n as int),
        decreases n - ti,
    {
        if tokens[ti].contains_unknow() {
            let is_bracket = tokens[ti].is_inside_delimiter();
            let raw = chars_of(tokens[ti].raw_token());
            let m = tokens[ti].len();
            let mut si: usize = 0;
            while si < m
                invariant
                    n == t0.len(),
                    ti < n,
                    m == t0[ti as int]@.subs.len(),
                    raw@ == t0[ti as int]@.raw,
                    is_bracket == t0[ti as int]@.inside,
                    0 <= si <= m,
                    tokens@ == t0,
                    elements@ == e0,
                    t0 == old(tokens)@,
                    e0 == old(elements)@,
                    progress(t0, tokens@, e0, elements@),
                    has_unknown(tokens_view(t0)[ti as int]),
                    bare_pass_spec(tokens_view(t0), e0, 0, n as int) == bare_pass_spec(tokens_view(t0), e0, ti as int, n as int),
                    bare_token(tokens_view(t0), e0, ti as int, 0, m as int) == bare_token(tokens_view(t0), e0, ti as int, si as int, m as int),
                decreases m - si,
            {
                match bare_number_at(tokens, ti, si, is_bracket, &raw, elements, Ghost(t0), Ghost(e0)) {
                    BareStep::Done => {
                        return;
                    },
                    BareStep::Next => {
                        si = si + 1;
                    },
                    BareStep::SkipTwo => {
                        si = if m - si > 1 { si + 2 } else { m };
                    },
                }
            }
        }
        ti = ti + 1;
    }
}

/// What `parse_episode_number` does: the first pass, then the second while no episode number
/// is known, then the third while none is known still.
pub open spec fn episode_number_spec(d: Seq<char>, ts: Seq<TokenView>, e: Seq<ElementView>) -> PassState {
    let s1 = prefixed_pass_spec(d, ts, e, 0, ts.len() as int);
    let s2 = if !has_category(s1.1, Category::EpisodeNumber) {
        pair_pass_spec(d, s1.0, s1.1, 0, s1.0.len() as int)
    } else {
        s1
    };
    if !has_category(s2.1, Category::EpisodeNumber) {
        bare_pass_spec(s2.0, s2.1, 0, s2.0.len() as int)
    } else {
        s2
    }
}

/// The first pass changes nothing over tokens without unclassified subtokens.
proof fn lemma_prefixed_idle(d: Seq<char>, ts: Seq<TokenView>, e: Seq<ElementView>, ti: int, n: int)
    requires
        0 <= ti,
        n <= ts.len(),
        forall|j: int| ti <= j < n ==> !has_unknown(#[trigger] ts[j]),
    ensures
        prefixed_pass_spec(d, ts, e, ti, n) == (ts, e),
    decreases n - ti,
{
    if ti < n {
        lemma_prefixed_idle(d, ts, e, ti + 1, n);
    }
}

/// The second pass changes nothing over tokens without unclassified subtokens.
proof fn lemma_pair_idle(d: Seq<char>, ts: Seq<TokenView>, e: Seq<ElementView>, ti: int, n: int)
    requires
        0 <= ti,
        n <= ts.len(),
        forall|j: int| ti <= j < n ==> !has_unknown(#[trigger] ts[j]),
    ensures
        pair_pass_spec(d, ts, e, ti, n) == (ts, e),
    decreases n - ti,
{
    if ti < n {
        lemma_pair_idle(d, ts, e, ti + 1, n);
    }
}

/// The third pass changes nothing over tokens without unclassified subtokens.
proof fn lemma_bare_idle(ts: Seq<TokenView>, e: Seq<ElementView>, ti: int, n: int)
    requires
        0 <= ti,
        n <= ts.len(),
        forall|j: int| ti <= j < n ==> !has_unknown(#[trigger] ts[j]),
    ensures
        bare_pass_spec(ts, e, ti, n) == (ts, e),
    decreases n - ti,
{
    if ti < n {
        lemma_bare_idle(ts, e, ti + 1, n);
    }
}

/// Episode-number extraction leaves the tokens and the elements as they are when no token has
/// an unclassified subtoken.
pub proof fn law_episode_number_idle(d: Seq<char>, ts: Seq<TokenView>, e: Seq<ElementView>)
    requires
        forall|j: int| 0 <= j < ts.len() ==> !has_unknown(#[trigger] ts[j]),
    ensures
        episode_number_spec(d, ts, e) == (ts, e),
{
    lemma_prefixed_idle(d, ts, e, 0, ts.len() as int);
    lemma_pair_idle(d, ts, e, 0, ts.len() as int);
    lemma_bare_idle(ts, e, 0, ts.len() as int);
}

/// The elements of `e2` that stand for the filename are those of `e1`.
pub open spec fn same_file_names(e1: Seq<ElementView>, e2: Seq<ElementView>) -> bool {
    of_category(e2, Category::FileName) == of_category(e1, Category::FileName)
}

/// One step of the first pass records nothing that stands for the filename.
proof fn lemma_prefixed_step_file_name(d: Seq<char>, ts: Seq<TokenView>, e: Seq<ElementView>, ti: int, si: int)
    ensures
        same_file_names(e, prefixed_step(d, ts, e, ti, si).1),
{
    let t = ts[ti];
    let to_parse = lookahead(t, si).0;
    lemma_patterns_no_file_name(d, to_parse);
    if let Some(found) = single_subtoken_spec(d, to_parse) {
        let e1 = e + found;
        lemma_of_category_append(e, found, Category::FileName);
        lemma_of_category_push(e1, (Category::EpisodeNumber, to_parse), Category::FileName);
        assert forall|v: Seq<char>| #[trigger] same_file_names(e, e1.push((Category::EpisodeNumber, v))) by {
            lemma_of_category_push(e1, (Category::EpisodeNumber, v), Category::FileName);
        }
    }
}

/// The first pass over subtokens `si..m` records nothing that stands for the filename.
proof fn lemma_prefixed_token_file_name(d: Seq<char>, ts: Seq<TokenView>, e: Seq<ElementView>, ti: int, si: int, m: int)
    ensures
        same_file_names(e, prefixed_token(d, ts, e, ti, si, m).1),
    decreases m - si,
{
    if si < m {
        let next = prefixed_step(d, ts, e, ti, si);
        lemma_prefixed_step_file_name(d, ts, e, ti, si);
        lemma_prefixed_token_file_name(d, next.0, next.1, ti, si + 1, m);
    }
}

/// The first pass over tokens `ti..n` records nothing that stands for the filename.
proof fn lemma_prefixed_pass_file_name(d: Seq<char>, ts: Seq<TokenView>, e: Seq<ElementView>, ti: int, n: int)
    ensures
        same_file_names(e, prefixed_pass_spec(d, ts, e, ti, n).1),
    decreases n - ti,
{
    if ti < n {
        if has_unknown(ts[ti]) {
            lemma_prefixed_token_file_name(d, ts, e, ti, 0, ts[ti].subs.len() as int);
        }
        let next = if has_unknown(ts[ti]) {
            prefixed_token(d, ts, e, ti, 0, ts[ti].subs.len() as int)
        } else {
            (ts, e)
        };
        lemma_prefixed_pass_file_name(d, next.0, next.1, ti + 1, n);
    }
}

/// Pushing episode numbers records nothing that stands for the filename.
proof fn lemma_episode_pushes_file_name()
    ensures
        forall|e: Seq<ElementView>, v: Seq<char>| #[trigger] same_file_names(e, e.push((Category::EpisodeNumber, v))),
        forall|e: Seq<ElementView>, v: Seq<char>, w: Seq<char>| #[trigger] same_file_names(
            e,
            e.push((Category::EpisodeNumber, v)).push((Category::EpisodeNumber, w)),
        ),
{
    assert forall|e: Seq<ElementView>, v: Seq<char>| #[trigger] same_file_names(e, e.push((Category::EpisodeNumber, v))) by {
        lemma_of_category_push(e, (Category::EpisodeNumber, v), Category::FileName);
    }
    assert forall|e: Seq<ElementView>, v: Seq<char>, w: Seq<char>| #[trigger] same_file_names(
        e,
        e.push((Category::EpisodeNumber, v)).push((Category::EpisodeNumber, w)),
    ) by {
        lemma_of_category_push(e, (Category::EpisodeNumber, v), Category::FileName);
        lemma_of_category_push(e.push((Category::EpisodeNumber, v)), (Category::EpisodeNumber, w), Category::FileName);
    }
}

/// The second pass over subtokens `index..m` records nothing that stands for the filename.
proof fn lemma_pair_token_file_name(d: Seq<char>, ts: Seq<TokenView>, e: Seq<ElementView>, ti: int, index: int, m: int)
    ensures
        pair_token(d, ts, e, ti, index, m) matches Some(r) ==> same_file_names(e, r.1),
    decreases m - index,
{
    if index < m {
        lemma_episode_pushes_file_name();
        lemma_pair_token_file_name(d, ts, e, ti, index + 1, m);
    }
}

/// The second pass over tokens `ti..n` records nothing that stands for the filename.
proof fn lemma_pair_pass_file_name(d: Seq<char>, ts: Seq<TokenView>, e: Seq<ElementView>, ti: int, n: int)
    ensures
        same_file_names(e, pair_pass_spec(d, ts, e, ti, n).1),
    decreases n - ti,
{
    if ti < n {
        lemma_pair_token_file_name(d, ts, e, ti, 0, ts[ti].subs.len() as int);
        lemma_pair_pass_file_name(d, ts, e, ti + 1, n);
    }
}

/// The third pass over subtokens `si..m` records nothing that stands for the filename.
proof fn lemma_bare_token_file_name(ts: Seq<TokenView>, e: Seq<ElementView>, ti: int, si: int, m: int)
    ensures
        bare_token(ts, e, ti, si, m) matches Some(r) ==> same_file_names(e, r.1),
    decreases m - si,
{
    if si < m {
        lemma_episode_pushes_file_name();
        let t = ts[ti];
        if t.subs[si].1 == SubTokenCategory::Found || !digit_spec(t.subs[si].0) {
            lemma_bare_token_file_name(ts, e, ti, si + 1, m);
        } else if decimal_at(t, si) {
            lemma_bare_token_file_name(ts, e, ti, if si + 1 < m { si + 2 } else { m }, m);
        } else if bare_rejected(t, si) {
            lemma_bare_token_file_name(ts, e, ti, si + 1, m);
        }
    }
}

/// The third pass over tokens `ti..n` records nothing that stands for the filename.
proof fn lemma_bare_pass_file_name(ts: Seq<TokenView>, e: Seq<ElementView>, ti: int, n: int)
    ensures
        same_file_names(e, bare_pass_spec(ts, e, ti, n).1),
    decreases n - ti,
{
    if ti < n {
        lemma_bare_token_file_name(ts, e, ti, 0, ts[ti].subs.len() as int);
        lemma_bare_pass_file_name(ts, e, ti + 1, n);
    }
}

/// Episode-number extraction records nothing that stands for the filename.
pub proof fn lemma_episode_number_file_name(d: Seq<char>, ts: Seq<TokenView>, e: Seq<ElementView>)
    ensures
        same_file_names(e, episode_number_spec(d, ts, e).1),
{
    let s1 = prefixed_pass_spec(d, ts, e, 0, ts.len() as int);
    lemma_prefixed_pass_file_name(d, ts, e, 0, ts.len() as int);
    lemma_pair_pass_file_name(d, s1.0, s1.1, 0, s1.0.len() as int);
    let s2 = if !has_category(s1.1, Category::EpisodeNumber) {
        pair_pass_spec(d, s1.0, s1.1, 0, s1.0.len() as int)
    } else {
        s1
    };
    lemma_bare_pass_file_name(s2.0, s2.1, 0, s2.0.len() as int);
}

/// Extracts the episode number: first from subtokens that mix letters and digits (`EP07`,
/// `S01E05`, `#12`, …), then, while none was found, from a pair of numbers, then from a bare
/// number. Subtokens it uses are marked found.
pub fn parse_episode_number(delimiter: &[char], tokens: &mut Vec<Token>, elements: &mut Elements)
    ensures
        (tokens_view(final(tokens)@), final(elements)@) == episode_number_spec(
            delimiter@,
            tokens_view(old(tokens)@),
            old(elements)@,
        ),
        tokens_marked(tokens_view(old(tokens)@), tokens_view(final(tokens)@)),
        grows(old(elements)@, final(elements)@),
        (forall|j: int| 0 <= j < old(tokens)@.len() ==> !has_unknown(#[trigger] tokens_view(old(tokens)@)[j]))
            ==> tokens_view(final(tokens)@) == tokens_view(old(tokens)@) && final(elements)@ == old(elements)@,
{
    proof {
        if forall|j: int| 0 <= j < old(tokens)@.len() ==> !has_unknown(#[trigger] tokens_view(old(tokens)@)[j]) {
            law_episode_number_idle(delimiter@, tokens_view(old(tokens)@), old(elements)@);
        }
    }
    prefixed_pass(delimiter, tokens, elements);
    let ghost t1 = tokens@;
    let ghost e1 = elements@;
    if elements.is_category_empty(Category::EpisodeNumber) {
        number_pair_pass(delimiter, tokens, elements);
    }
    proof {
        if t1 == tokens@ {
            lemma_tokens_marked_refl(tokens_view(t1));
            lemma_grows_refl(e1);
        }
        lemma_tokens_marked_trans(tokens_view(old(tokens)@), tokens_view(t1), tokens_view(tokens@));
        lemma_grows_trans(old(elements)@, e1, elements@);
    }
    let ghost t2 = tokens@;
    let ghost e2 = elements@;
    if elements.is_category_empty(Category::EpisodeNumber) {
        bare_number_pass(tokens, elements);
    }
    proof {
        if t2 == tokens@ {
            lemma_tokens_marked_refl(tokens_view(t2));
            lemma_grows_refl(e2);
        }
        lemma_tokens_marked_trans(tokens_view(old(tokens)@), tokens_view(t2), tokens_view(tokens@));
        lemma_grows_trans(old(elements)@, e2, elements@);
    }
}

// ── alternative episode numbers ──────────────────────────────────────────────

/// What `str::parse::<i32>` gives for `s`, or `d` when it fails.
pub open spec fn parse_or(s: Seq<char>, d: int) -> int {
    match parsed_i32(s) {
        Some(v) => v as int,
        None => d,
    }
}

/// Two episode numbers reconciled: equal ones (`01` and `1`) become the shorter one; with a
/// season known, the smaller is the episode and the larger the alternative number. The episode
/// prefix goes in both cases.
pub open spec fn alt_pair_spec(e: Seq<ElementView>) -> Seq<ElementView> {
    let eps = of_category(e, Category::EpisodeNumber);
    let v1 = eps[0].1;
    let v2 = eps[1].1;
    let n1 = parse_or(v1, -1);
    let n2 = parse_or(v2, -1);
    let cleared = without_first_of(without_first_of(e, Category::EpisodeNumber), Category::EpisodeNumber);
    if n1 >= 0 && n2 >= 0 && n1 == n2 {
        let keep = if utf8_len(v1) <= utf8_len(v2) { v1 } else { v2 };
        without_first_of(cleared.push((Category::EpisodeNumber, keep)), Category::EpisodePrefix)
    } else if n1 >= 0 && n2 >= 0 && has_category(e, Category::AnimeSeason) {
        let small = if n1 < n2 { v1 } else { v2 };
        let large = if n1 < n2 { v2 } else { v1 };
        without_first_of(
            cleared.push((Category::EpisodeNumber, small)).push((Category::EpisodeNumberAlt, large)),
            Category::EpisodePrefix,
        )
    } else {
        e
    }
}

/// A bracketed, parenthesised token holding a single unclassified number.
pub open spec fn paren_number(t: TokenView) -> bool {
    &&& t.inside
    &&& t.paren
    &&& t.subs.len() == 1
    &&& t.subs[0].1 == SubTokenCategory::Unknow
    &&& digit_spec(t.subs[0].0)
}

/// What a parenthesised number does to the elements: a smaller number of the same width takes
/// the episode's place (which becomes the alternative number), a larger one is the alternative
/// number. `None` when the token is left alone.
pub open spec fn paren_step(t: TokenView, e: Seq<ElementView>) -> Option<Seq<ElementView>> {
    if !paren_number(t) {
        None
    } else {
        let val = t.subs[0].0;
        let paren_num = parse_or(val, 0);
        match first_of(e, Category::EpisodeNumber) {
            None => None,
            Some(ep) => {
                let ep_num = parse_or(ep.1, 0);
                if paren_num == 0 || paren_num == ep_num {
                    None
                } else if paren_num < ep_num {
                    if utf8_len(val) != utf8_len(ep.1) {
                        None
                    } else {
                        Some(
                            without_first_of(e, Category::EpisodeNumber).push((Category::EpisodeNumber, val)).push(
                                (Category::EpisodeNumberAlt, ep.1),
                            ),
                        )
                    }
                } else {
                    Some(e.push((Category::EpisodeNumberAlt, val)))
                }
            },
        }
    }
}

/// A parenthesised lone number beside the one episode number: it is taken when it is not zero,
/// differs from the episode number, and is either larger or written with as many bytes. Then the
/// smaller of the two is the episode number and the larger one is added as the alternative
/// number; no other episode number or alternative number appears or goes.
pub proof fn law_paren_number(t: TokenView, e: Seq<ElementView>)
    requires
        of_category(e, Category::EpisodeNumber).len() == 1,
    ensures
        ({
            let ev = of_category(e, Category::EpisodeNumber)[0].1;
            let p = t.subs[0].0;
            let pn = parse_or(p, 0);
            let en = parse_or(ev, 0);
            (paren_step(t, e) is Some) <==> (paren_number(t) && pn != 0 && pn != en && (pn > en || utf8_len(p)
                == utf8_len(ev)))
        }),
        ({
            let ev = of_category(e, Category::EpisodeNumber)[0].1;
            let p = t.subs[0].0;
            let small = if parse_or(p, 0) < parse_or(ev, 0) { p } else { ev };
            let large = if parse_or(p, 0) < parse_or(ev, 0) { ev } else { p };
            paren_step(t, e) matches Some(e2) ==> {
                &&& of_category(e2, Category::EpisodeNumber) == seq![(Category::EpisodeNumber, small)]
                &&& of_category(e2, Category::EpisodeNumberAlt) == of_category(e, Category::EpisodeNumberAlt).push(
                    (Category::EpisodeNumberAlt, large),
                )
                &&& parse_or(small, 0) < parse_or(large, 0)
            }
        }),
{
    let en_c = Category::EpisodeNumber;
    let alt_c = Category::EpisodeNumberAlt;
    crate::elements::lemma_single_of_category(e, en_c);
    let ev = of_category(e, en_c)[0].1;
    let p = t.subs[0].0;
    let x = of_category(e, en_c)[0];
    assert(x.0 == en_c) by {
        e.lemma_filter_pred(crate::elements::is_of(en_c), 0);
    }
    assert(x == (en_c, ev));
    let w = without_first_of(e, en_c);
    let a = w.push((en_c, p));
    let b = a.push((alt_c, ev));
    w.lemma_filter_push((en_c, p), crate::elements::is_of(en_c));
    a.lemma_filter_push((alt_c, ev), crate::elements::is_of(en_c));
    assert(of_category(w, en_c) =~= Seq::<ElementView>::empty());
    assert(of_category(b, en_c) =~= seq![(en_c, p)]);
    lemma_of_category_without_first(e, en_c, alt_c);
    lemma_of_category_push(w, (en_c, p), alt_c);
    b.lemma_filter_push((alt_c, ev), crate::elements::is_of(alt_c));
    a.lemma_filter_push((alt_c, ev), crate::elements::is_of(alt_c));
    let c = e.push((alt_c, p));
    lemma_of_category_push(e, (alt_c, p), en_c);
    e.lemma_filter_push((alt_c, p), crate::elements::is_of(alt_c));
}

/// The parenthesised-number pass over tokens `i..`: each token that `paren_step` takes has its
/// number marked found.
pub open spec fn paren_pass(ts: Seq<TokenView>, e: Seq<ElementView>, i: int) -> PassState
    decreases ts.len() - i,
{
    if !(0 <= i < ts.len()) {
        (ts, e)
    } else {
        match paren_step(ts[i], e) {
            Some(e2) => paren_pass(mark_tokens(ts, i, 0), e2, i + 1),
            None => paren_pass(ts, e, i + 1),
        }
    }
}

/// What `detect_episode_number_alt` does: with two episode numbers see `alt_pair_spec`, with
/// one see `paren_pass`, and otherwise nothing.
pub open spec fn alt_spec(ts: Seq<TokenView>, e: Seq<ElementView>) -> PassState {
    let count = of_category(e, Category::EpisodeNumber).len();
    if count == 2 {
        (ts, alt_pair_spec(e))
    } else if count == 1 {
        paren_pass(ts, e, 0)
    } else {
        (ts, e)
    }
}

/// Reconciling two episode numbers touches nothing that stands for the filename.
proof fn lemma_alt_pair_file_name(e: Seq<ElementView>)
    ensures
        same_file_names(e, alt_pair_spec(e)),
{
    let c = Category::FileName;
    let eps = of_category(e, Category::EpisodeNumber);
    let v1 = eps[0].1;
    let v2 = eps[1].1;
    let once = without_first_of(e, Category::EpisodeNumber);
    let cleared = without_first_of(once, Category::EpisodeNumber);
    lemma_of_category_without_first(e, Category::EpisodeNumber, c);
    lemma_of_category_without_first(once, Category::EpisodeNumber, c);
    let keep = if utf8_len(v1) <= utf8_len(v2) { v1 } else { v2 };
    let small = if parse_or(v1, -1) < parse_or(v2, -1) { v1 } else { v2 };
    let large = if parse_or(v1, -1) < parse_or(v2, -1) { v2 } else { v1 };
    let a = cleared.push((Category::EpisodeNumber, keep));
    lemma_of_category_push(cleared, (Category::EpisodeNumber, keep), c);
    lemma_of_category_without_first(a, Category::EpisodePrefix, c);
    let b1 = cleared.push((Category::EpisodeNumber, small));
    let b = b1.push((Category::EpisodeNumberAlt, large));
    lemma_of_category_push(cleared, (Category::EpisodeNumber, small), c);
    lemma_of_category_push(b1, (Category::EpisodeNumberAlt, large), c);
    lemma_of_category_without_first(b, Category::EpisodePrefix, c);
}

/// A parenthesised number touches nothing that stands for the filename.
proof fn lemma_paren_step_file_name(t: TokenView, e: Seq<ElementView>)
    ensures
        paren_step(t, e) matches Some(e2) ==> same_file_names(e, e2),
{
    let c = Category::FileName;
    let val = t.subs[0].0;
    lemma_of_category_push(e, (Category::EpisodeNumberAlt, val), c);
    if let Some(ep) = first_of(e, Category::EpisodeNumber) {
        let w = without_first_of(e, Category::EpisodeNumber);
        lemma_of_category_without_first(e, Category::EpisodeNumber, c);
        lemma_of_category_push(w, (Category::EpisodeNumber, val), c);
        lemma_of_category_push(w.push((Category::EpisodeNumber, val)), (Category::EpisodeNumberAlt, ep.1), c);
    }
}

/// The parenthesised-number pass over tokens `i..` touches nothing that stands for the filename.
proof fn lemma_paren_pass_file_name(ts: Seq<TokenView>, e: Seq<ElementView>, i: int)
    ensures
        same_file_names(e, paren_pass(ts, e, i).1),
    decreases ts.len() - i,
{
    if 0 <= i < ts.len() {
        lemma_paren_step_file_name(ts[i], e);
        match paren_step(ts[i], e) {
            Some(e2) => lemma_paren_pass_file_name(mark_tokens(ts, i, 0), e2, i + 1),
            None => lemma_paren_pass_file_name(ts, e, i + 1),
        }
    }
}

/// Looking for the alternative episode number touches nothing that stands for the filename.
pub proof fn lemma_alt_file_name(ts: Seq<TokenView>, e: Seq<ElementView>)
    ensures
        same_file_names(e, alt_spec(ts, e).1),
{
    lemma_alt_pair_file_name(e);
    lemma_paren_pass_file_name(ts, e, 0);
}

/// `str::parse::<i32>`, or `d` when it fails.
pub fn parse_or_else(s: &str, d: i32) -> (r: i32)
    ensures
        r == parse_or(s@, d as int),
{
    match parse_i32(s) {
        Some(v) => v,
        None => d,
    }
}

/// The two-episode case of `detect_episode_number_alt`.
fn reconcile_pair(elements: &mut Elements)
    requires
        of_category(old(elements)@, Category::EpisodeNumber).len() == 2,
    ensures
        final(elements)@ == alt_pair_spec(old(elements)@),
{
    let eps = match elements.find_all(Category::EpisodeNumber) {
        Some(v) => v,
        None => {
            return;
        },
    };
    let ghost e = elements@;
    let ghost spec_eps = of_category(e, Category::EpisodeNumber);
    assert(eps@.map_values(|x: Element| x@)[0] == eps@[0]@);
    assert(eps@.map_values(|x: Element| x@)[1] == eps@[1]@);
    let c1 = chars_of(eps[0].value.as_str());
    let c2 = chars_of(eps[1].value.as_str());
    let v1 = string_of(&c1);
    let v2 = string_of(&c2);
    assert(v1@ == spec_eps[0].1);
    assert(v2@ == spec_eps[1].1);
    let n1 = parse_or_else(v1.as_str(), -1);
    let n2 = parse_or_else(v2.as_str(), -1);
    if n1 >= 0 && n2 >= 0 && n1 == n2 {
        elements.remove_first(Category::EpisodeNumber);
        elements.remove_first(Category::EpisodeNumber);
        if utf8_len_of(&c1) <= utf8_len_of(&c2) {
            elements.push(Category::EpisodeNumber, v1.as_str());
        } else {
            elements.push(Category::EpisodeNumber, v2.as_str());
        }
        elements.remove_first(Category::EpisodePrefix);
    } else if n1 >= 0 && n2 >= 0 && !elements.is_category_empty(Category::AnimeSeason) {
        elements.remove_first(Category::EpisodeNumber);
        elements.remove_first(Category::EpisodeNumber);
        if n1 < n2 {
            elements.push(Category::EpisodeNumber, v1.as_str());
            elements.push(Category::EpisodeNumberAlt, v2.as_str());
        } else {
            elements.push(Category::EpisodeNumber, v2.as_str());
            elements.push(Category::EpisodeNumberAlt, v1.as_str());
        }
        elements.remove_first(Category::EpisodePrefix);
    }
}

/// One token of the single-episode case of `detect_episode_number_alt`.
fn paren_token(tokens: &mut Vec<Token>, ti: usize, elements: &mut Elements) -> (marked: bool)
    requires
        ti < old(tokens)@.len(),
    ensures
        match paren_step(old(tokens)@[ti as int]@, old(elements)@) {
            Some(e) => marked && final(elements)@ == e && tokens_view(final(tokens)@) == mark_tokens(
                tokens_view(old(tokens)@),
                ti as int,
                0,
            ),
            None => !marked && final(elements)@ == old(elements)@,
        },
        marked ==> tokens_marked(tokens_view(old(tokens)@), tokens_view(final(tokens)@)),
        !marked ==> final(tokens)@ == old(tokens)@,
        final(tokens)@.len() == old(tokens)@.len(),
        forall|j: int| 0 <= j < old(tokens)@.len() && j != ti ==> final(tokens)@[j] == old(tokens)@[j],
{
    let ghost t = tokens@[ti as int]@;
    if !tokens[ti].is_inside_delimiter() || !tokens[ti].is_paren() || !tokens[ti].contains_unknow() {
        return false;
    }
    if tokens[ti].len() != 1 || !tokens[ti].sub_is(0, SubTokenCategory::Unknow) {
        return false;
    }
    let val = string_of(&chars_of(tokens[ti].sub_value(0)));
    if !is_digit(val.as_str()) {
        return false;
    }
    let paren_num = parse_or_else(val.as_str(), 0);
    if paren_num == 0 {
        return false;
    }
    let ep_elem = match elements.find(Category::EpisodeNumber) {
        Some(x) => x,
        None => {
            return false;
        },
    };
    let ep_num = parse_or_else(ep_elem.value.as_str(), 0);
    if paren_num == ep_num {
        return false;
    }
    if paren_num < ep_num {
        if utf8_len_of(&chars_of(val.as_str())) != utf8_len_of(&chars_of(ep_elem.value.as_str())) {
            return false;
        }
        let old_ep = match elements.remove_first(Category::EpisodeNumber) {
            Some(v) => v,
            None => {
                return false;
            },
        };
        elements.push(Category::EpisodeNumber, val.as_str());
        elements.push(Category::EpisodeNumberAlt, old_ep.as_str());
    } else {
        elements.push(Category::EpisodeNumberAlt, val.as_str());
    }
    mark_sub(tokens, ti, 0);
    true
}

/// Detects an alternative episode number: two episode numbers are reconciled, and with one
/// episode number a parenthesised number beside it is the alternative (absolute) number.
pub fn detect_episode_number_alt(tokens: &mut Vec<Token>, elements: &mut Elements)
    ensures
        (tokens_view(final(tokens)@), final(elements)@) == alt_spec(tokens_view(old(tokens)@), old(elements)@),
        tokens_marked(tokens_view(old(tokens)@), tokens_view(final(tokens)@)),
{
    proof {
        lemma_tokens_marked_refl(tokens_view(tokens@));
    }
    let ep_count = elements.count_of(Category::EpisodeNumber);
    if ep_count == 2 {
        reconcile_pair(elements);
        return;
    }
    if ep_count != 1 {
        return;
    }
    let ghost total = paren_pass(tokens_view(tokens@), elements@, 0);
    let n = tokens.len();
    let mut ti: usize = 0;
    while ti < n
        invariant
            n == tokens@.len(),
            n == old(tokens)@.len(),
            0 <= ti <= n,
            tokens_marked(tokens_view(old(tokens)@), tokens_view(tokens@)),
            total == paren_pass(tokens_view(old(tokens)@), old(elements)@, 0),
            total == paren_pass(tokens_view(tokens@), elements@, ti as int),
        decreases n - ti,
    {
        let ghost before = tokens@;
        let marked = paren_token(tokens, ti, elements);
        proof {
            if marked {
                lemma_tokens_marked_trans(tokens_view(old(tokens)@), tokens_view(before), tokens_view(tokens@));
            }
        }
        ti = ti + 1;
    }
}

/// The passes of `detect_episode_number_alt` keep every leading element of another category
/// than the episode number and its prefix.
proof fn lemma_pair_keeps_prefix(p: Seq<ElementView>, e: Seq<ElementView>)
    requires
        grows(p, e),
        !has_category(p, Category::EpisodeNumber),
        !has_category(p, Category::EpisodePrefix),
    ensures
        grows(p, alt_pair_spec(e)),
{
    let once = without_first_of(e, Category::EpisodeNumber);
    lemma_grows_without_first(p, e, Category::EpisodeNumber);
    lemma_grows_without_first(p, once, Category::EpisodeNumber);
    let cleared = without_first_of(once, Category::EpisodeNumber);
    let eps = of_category(e, Category::EpisodeNumber);
    let v1 = eps[0].1;
    let v2 = eps[1].1;
    let keep = if utf8_len(v1) <= utf8_len(v2) { v1 } else { v2 };
    lemma_grows_push(p, cleared, (Category::EpisodeNumber, keep));
    lemma_grows_without_first(p, cleared.push((Category::EpisodeNumber, keep)), Category::EpisodePrefix);
    let n1 = parse_or(v1, -1);
    let n2 = parse_or(v2, -1);
    let small = if n1 < n2 { v1 } else { v2 };
    let large = if n1 < n2 { v2 } else { v1 };
    lemma_grows_push(p, cleared, (Category::EpisodeNumber, small));
    lemma_grows_push(p, cleared.push((Category::EpisodeNumber, small)), (Category::EpisodeNumberAlt, large));
    lemma_grows_without_first(
        p,
        cleared.push((Category::EpisodeNumber, small)).push((Category::EpisodeNumberAlt, large)),
        Category::EpisodePrefix,
    );
}

/// `paren_pass` keeps leading elements that are not episode numbers.
proof fn lemma_pass_keeps_prefix(p: Seq<ElementView>, ts: Seq<TokenView>, e: Seq<ElementView>, i: int)
    requires
        grows(p, e),
        !has_category(p, Category::EpisodeNumber),
    ensures
        grows(p, paren_pass(ts, e, i).1),
    decreases ts.len() - i,
{
    if 0 <= i < ts.len() {
        let t = ts[i];
        match paren_step(t, e) {
            Some(e2) => {
                let val = t.subs[0].0;
                let ep = first_of(e, Category::EpisodeNumber).unwrap();
                let removed = without_first_of(e, Category::EpisodeNumber);
                lemma_grows_without_first(p, e, Category::EpisodeNumber);
                lemma_grows_push(p, removed, (Category::EpisodeNumber, val));
                lemma_grows_push(p, removed.push((Category::EpisodeNumber, val)), (Category::EpisodeNumberAlt, ep.1));
                lemma_grows_push(p, e, (Category::EpisodeNumberAlt, val));
                lemma_pass_keeps_prefix(p, mark_tokens(ts, i, 0), e2, i + 1);
            },
            None => {
                lemma_pass_keeps_prefix(p, ts, e, i + 1);
            },
        }
    }
}

/// Reconciling episode numbers keeps the leading elements of other categories than the episode
/// number and its prefix (such as the filename and its extension).
pub proof fn lemma_alt_keeps_prefix(p: Seq<ElementView>, ts: Seq<TokenView>, e: Seq<ElementView>)
    requires
        grows(p, e),
        !has_category(p, Category::EpisodeNumber),
        !has_category(p, Category::EpisodePrefix),
    ensures
        grows(p, alt_spec(ts, e).1),
{
    lemma_pair_keeps_prefix(p, e);
    lemma_pass_keeps_prefix(p, ts, e, 0);
}

} // verus!
