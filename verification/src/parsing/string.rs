//! Anime title, release group and episode title extraction.
use vstd::prelude::*;

use crate::elements::{
    Category, ElementView, Elements, first_of, grows, grows_with, has_category, lemma_grows_refl, lemma_grows_trans,
    lemma_grows_with_trans,
};
use crate::keyword::{keyword_of, Manager};
use crate::text::{
    all_alphabetic, any_alphabetic, any_alphanumeric, chars_of, char_in, concat, contains_seq, extend, first_segment,
    has_alphabetic, is_ascii_alpha, is_ascii_digit, last_segment, occurs_in, only_ascii_digits, trim_start, trim_start_ws,
    uppercase,
    has_alphanumeric, only_alphabetic, slice_of, string_of, to_upper, trim_chars, trim_whitespace, trim_ws, trimmed, upper_of,
    utf8_len, utf8_len_capped, str_eq,
};
use crate::token::main_token::{
    has_unknown, lemma_mark_range_empty, lemma_mark_range_step, lemma_subs_marked_trans, lemma_tokens_marked_refl,
    lemma_tokens_marked_trans, mark_all, mark_range, mark_sub, mark_token, mark_tokens, all_unknown, sub_marked, subs_marked,
    token_marked, tokens_marked, tokens_view, Token, TokenView,
};
use crate::token::subtoken::SubTokenView;
use crate::token::subtoken::SubTokenCategory;

verus! {

/// Some subtoken of `t` is not yet found.
pub open spec fn has_unfound(t: TokenView) -> bool {
    exists|i: int| 0 <= i < t.subs.len() && (#[trigger] t.subs[i]).1 != SubTokenCategory::Found
}

/// The first position from `k` on whose subtoken is not found (or the end).
pub open spec fn found_run_end(subs: Seq<SubTokenView>, k: int) -> int
    decreases subs.len() - k,
{
    if k >= subs.len() || subs[k].1 != SubTokenCategory::Found {
        k
    } else {
        found_run_end(subs, k + 1)
    }
}

/// The first position from `k` on whose subtoken is found (or the end).
pub open spec fn unfound_run_end(subs: Seq<SubTokenView>, k: int) -> int
    decreases subs.len() - k,
{
    if k >= subs.len() || subs[k].1 == SubTokenCategory::Found {
        k
    } else {
        unfound_run_end(subs, k + 1)
    }
}

/// The position after the subtokens from `k` on that are not found, not empty, and hold no
/// letter or digit.
pub open spec fn symbol_run_end(subs: Seq<SubTokenView>, k: int) -> int
    decreases subs.len() - k,
{
    if k < subs.len() && subs[k].1 != SubTokenCategory::Found && subs[k].0.len() > 0 && !any_alphanumeric(subs[k].0) {
        symbol_run_end(subs, k + 1)
    } else {
        k
    }
}

/// The texts of subtokens `from..to`, each preceded by a space.
pub open spec fn spaced_text(subs: Seq<SubTokenView>, from: int, to: int) -> Seq<char>
    decreases to - from,
{
    if to <= from {
        Seq::empty()
    } else {
        spaced_text(subs, from, to - 1).push(' ') + subs[to - 1].0
    }
}

/// What `parse_particular_string_subtoken` does: from the first subtoken not found (for an
/// episode title, past those made only of symbols), the run of subtokens up to the next found one
/// is joined with spaces, trimmed of delimiters and recorded as `c`; every subtoken from the first
/// one not found to the end of the run is marked found.
pub open spec fn particular_spec(t: TokenView, e: Seq<ElementView>, c: Category, d: Seq<char>) -> (TokenView, Seq<ElementView>) {
    let first = found_run_end(t.subs, 0);
    let start = if c == Category::EpisodeTitle { symbol_run_end(t.subs, first) } else { first };
    let end = unfound_run_end(t.subs, start);
    let text = spaced_text(t.subs, start, end);
    let record = if end < t.subs.len() { trimmed(text, d).len() > 0 } else { text.len() > 0 };
    (mark_range(t, first, end), if record { e.push((c, trimmed(text, d))) } else { e })
}

/// Collects the unclassified subtokens of `token` into a single string and pushes it as category `c`.
pub fn parse_particular_string_subtoken(token: &mut Token, e: &mut Elements, c: Category, d: &[char])
    requires
        has_unfound(old(token)@),
    ensures
        (final(token)@, final(e)@) == particular_spec(old(token)@, old(e)@, c, d@),
        token_marked(old(token)@, final(token)@),
        grows_with(old(e)@, final(e)@, c),
        final(e)@.len() <= old(e)@.len() + 1,
{
    let ghost t0 = token@;
    let ghost subs = t0.subs;
    let n = token.len();
    let mut id: usize = 0;
    while token.sub_is(id, SubTokenCategory::Found)
        invariant
            n == token@.subs.len(),
            token@ == old(token)@,
            t0 == old(token)@,
            subs == t0.subs,
            0 <= id < n,
            has_unfound(token@),
            forall|j: int| 0 <= j < id ==> (#[trigger] token@.subs[j]).1 == SubTokenCategory::Found,
            found_run_end(subs, 0) == found_run_end(subs, id as int),
        decreases n - id,
    {
        id = id + 1;
        assert(id < n) by {
            let w = choose|w: int| 0 <= w < token@.subs.len() && (#[trigger] token@.subs[w]).1 != SubTokenCategory::Found;
            assert(w >= id);
        }
    }
    let first = id;
    assert(found_run_end(subs, id as int) == id);
    proof {
        lemma_grows_refl(e@);
        lemma_mark_range_empty(t0, first as int);
        assert forall|j: int| 0 <= j < token@.subs.len() implies sub_marked(#[trigger] token@.subs[j], token@.subs[j]) by {}
    }
    if c == Category::EpisodeTitle {
        while id < n && !token.sub_is(id, SubTokenCategory::Found)
            invariant
                n == token@.subs.len(),
                first <= id <= n,
                t0 == old(token)@,
                subs == t0.subs,
                token_marked(old(token)@, token@),
                token@ == mark_range(t0, first as int, id as int),
                symbol_run_end(subs, first as int) == symbol_run_end(subs, id as int),
                e@ == old(e)@,
            ensures
                symbol_run_end(subs, first as int) == id,
            decreases n - id,
        {
            assert(token@.subs[id as int] == subs[id as int]);
            let v = chars_of(token.sub_value(id));
            if v.len() == 0 || has_alphanumeric(&v) {
                break;
            }
            let ghost before = token@;
            token.mark_found(id);
            proof {
                lemma_subs_marked_trans(old(token)@.subs, before.subs, token@.subs);
                lemma_mark_range_step(t0, first as int, id as int);
            }
            id = id + 1;
        }
    }
    proof {
        if c == Category::EpisodeTitle && id < n {
            assert(token@.subs[id as int] == subs[id as int]);
        }
    }
    let start = id;
    assert(start as int == if c == Category::EpisodeTitle { symbol_run_end(subs, first as int) } else { first as int });
    let mut text: Vec<char> = Vec::new();
    proof {
        assert(text@ =~= spaced_text(subs, start as int, start as int));
    }
    while id < n
        invariant
            n == token@.subs.len(),
            start <= id <= n,
            first <= start,
            t0 == old(token)@,
            subs == t0.subs,
            token_marked(old(token)@, token@),
            token@ == mark_range(t0, first as int, id as int),
            unfound_run_end(subs, start as int) == unfound_run_end(subs, id as int),
            text@ == spaced_text(subs, start as int, id as int),
            e@ == old(e)@,
            found_run_end(subs, 0) == first,
            start as int == if c == Category::EpisodeTitle { symbol_run_end(subs, first as int) } else { first as int },
        decreases n - id,
    {
        assert(token@.subs[id as int] == subs[id as int]);
        if token.sub_is(id, SubTokenCategory::Found) {
            assert(unfound_run_end(subs, id as int) == id as int);
            let trimmed_text = trim_chars(&text, d);
            if trimmed_text.len() > 0 {
                e.push_chars(c, &trimmed_text);
            }
            proof {
                lemma_grows_refl(old(e)@);
                assert(e@.subrange(0, old(e)@.len() as int) =~= old(e)@);
            }
            return;
        }
        text.push(' ');
        let v = chars_of(token.sub_value(id));
        extend(&mut text, &v);
        let ghost before = token@;
        token.mark_found(id);
        proof {
            lemma_subs_marked_trans(old(token)@.subs, before.subs, token@.subs);
            lemma_mark_range_step(t0, first as int, id as int);
        }
        id = id + 1;
    }
    if text.len() > 0 {
        let trimmed_text = trim_chars(&text, d);
        e.push_chars(c, &trimmed_text);
    }
    proof {
        lemma_grows_refl(old(e)@);
        assert(e@.subrange(0, old(e)@.len() as int) =~= old(e)@);
    }
}

/// Words joined with single spaces.
pub open spec fn words_joined(ws: Seq<Seq<char>>) -> Seq<char>
    decreases ws.len(),
{
    if ws.len() == 0 {
        Seq::empty()
    } else if ws.len() == 1 {
        ws[0]
    } else {
        words_joined(ws.drop_last()).push(' ') + ws.last()
    }
}

/// Non-empty words joined start with the first word's first character and end with the last
/// word's last character.
proof fn lemma_words_joined_ends(ws: Seq<Seq<char>>)
    requires
        ws.len() >= 1,
        forall|j: int| 0 <= j < ws.len() ==> (#[trigger] ws[j]).len() > 0,
    ensures
        words_joined(ws).len() > 0,
        words_joined(ws)[0] == ws[0][0],
        words_joined(ws).last() == ws.last().last(),
    decreases ws.len(),
{
    if ws.len() > 1 {
        let w = ws.drop_last();
        assert forall|j: int| 0 <= j < w.len() implies (#[trigger] w[j]).len() > 0 by {
            assert(w[j] == ws[j]);
        }
        lemma_words_joined_ends(w);
        assert(w[0] == ws[0]);
    }
}

/// The texts of subtokens `from..to` (at least one), each preceded by a space, are a space and
/// then those texts joined with spaces.
proof fn lemma_spaced_text_joined(subs: Seq<SubTokenView>, from: int, to: int)
    requires
        0 <= from < to <= subs.len(),
    ensures
        spaced_text(subs, from, to) == seq![' '] + words_joined(
            subs.subrange(from, to).map_values(|x: SubTokenView| x.0),
        ),
    decreases to - from,
{
    let ws = subs.subrange(from, to).map_values(|x: SubTokenView| x.0);
    if to == from + 1 {
        assert(spaced_text(subs, from, from) =~= Seq::<char>::empty());
        assert(ws[0] == subs[from].0);
        assert(Seq::<char>::empty().push(' ') + subs[from].0 =~= seq![' '] + subs[from].0);
    } else {
        lemma_spaced_text_joined(subs, from, to - 1);
        let ws1 = subs.subrange(from, to - 1).map_values(|x: SubTokenView| x.0);
        assert(ws.drop_last() =~= ws1);
        assert(ws.last() == subs[to - 1].0);
        assert((seq![' '] + words_joined(ws1)).push(' ') + subs[to - 1].0 =~= seq![' '] + (words_joined(ws1).push(
            ' ',
        ) + subs[to - 1].0));
    }
}

/// The first position from `k` on whose subtoken is not found, when those before `m` are found
/// and the one at `m` is not.
proof fn lemma_found_run_end_at(subs: Seq<SubTokenView>, k: int, m: int)
    requires
        0 <= k <= m < subs.len(),
        forall|j: int| k <= j < m ==> (#[trigger] subs[j]).1 == SubTokenCategory::Found,
        subs[m].1 != SubTokenCategory::Found,
    ensures
        found_run_end(subs, k) == m,
    decreases m - k,
{
    if k < m {
        lemma_found_run_end_at(subs, k + 1, m);
    }
}

/// From `k` on, no subtoken is found: the run of unfound subtokens reaches the end.
proof fn lemma_unfound_to_end(subs: Seq<SubTokenView>, k: int)
    requires
        0 <= k <= subs.len(),
        forall|j: int| k <= j < subs.len() ==> (#[trigger] subs[j]).1 != SubTokenCategory::Found,
    ensures
        unfound_run_end(subs, k) == subs.len(),
    decreases subs.len() - k,
{
    if k < subs.len() {
        lemma_unfound_to_end(subs, k + 1);
    }
}

/// The episode title of a token whose first `k` subtokens are found and whose others, to its
/// end, are unclassified words (each holding a letter or digit and no delimiter): those words,
/// joined with single spaces, are recorded as the episode title, and every subtoken of the token
/// ends up found.
pub proof fn law_episode_title_words(t: TokenView, e: Seq<ElementView>, d: Seq<char>, k: int)
    requires
        0 <= k < t.subs.len(),
        d.contains(' '),
        forall|j: int| 0 <= j < k ==> (#[trigger] t.subs[j]).1 == SubTokenCategory::Found,
        forall|j: int| k <= j < t.subs.len() ==> (#[trigger] t.subs[j]).1 != SubTokenCategory::Found,
        forall|j: int| k <= j < t.subs.len() ==> any_alphanumeric(#[trigger] t.subs[j].0),
        forall|j: int, i: int| k <= j < t.subs.len() && 0 <= i < t.subs[j].0.len() ==> !d.contains(
            #[trigger] t.subs[j].0[i],
        ),
    ensures
        particular_spec(t, e, Category::EpisodeTitle, d).1 == e.push(
            (
                Category::EpisodeTitle,
                words_joined(t.subs.subrange(k, t.subs.len() as int).map_values(|x: SubTokenView| x.0)),
            ),
        ),
        forall|j: int| 0 <= j < t.subs.len() ==> (#[trigger] particular_spec(t, e, Category::EpisodeTitle, d).0.subs[j])
            == (t.subs[j].0, SubTokenCategory::Found),
{
    let subs = t.subs;
    let n = subs.len() as int;
    lemma_found_run_end_at(subs, 0, k);
    assert(subs[k].0.len() > 0) by {
        assert(any_alphanumeric(subs[k].0));
    }
    assert(symbol_run_end(subs, k) == k) by {
        assert(any_alphanumeric(subs[k].0));
    }
    lemma_unfound_to_end(subs, k);
    lemma_spaced_text_joined(subs, k, n);
    let ws = subs.subrange(k, n).map_values(|x: SubTokenView| x.0);
    assert forall|j: int| 0 <= j < ws.len() implies (#[trigger] ws[j]).len() > 0 by {
        assert(ws[j] == subs[k + j].0);
        assert(any_alphanumeric(subs[k + j].0));
    }
    lemma_words_joined_ends(ws);
    let w = words_joined(ws);
    let text = seq![' '] + w;
    assert(ws[0] == subs[k].0);
    assert(!d.contains(w[0])) by {
        assert(w[0] == subs[k].0[0]);
    }
    assert(!d.contains(w.last())) by {
        assert(ws.last() == subs[n - 1].0);
        assert(w.last() == subs[n - 1].0[subs[n - 1].0.len() - 1]);
    }
    assert(text.drop_first() =~= w);
    assert(crate::text::trim_start(text, d) == crate::text::trim_start(w, d));
    assert(crate::text::trim_start(w, d) == w);
    assert(crate::text::trim_end(w, d) == w);
    assert(trimmed(text, d) == w);
}

/// The episode title is taken from the first token, from `i` on, outside brackets with an
/// unclassified subtoken and a letter or digit in its raw text.
pub open spec fn episode_title_from(ts: Seq<TokenView>, e: Seq<ElementView>, d: Seq<char>, i: int) -> (Seq<TokenView>, Seq<ElementView>)
    decreases ts.len() - i,
{
    if i >= ts.len() {
        (ts, e)
    } else if has_unknown(ts[i]) && !ts[i].inside && any_alphanumeric(ts[i].raw) {
        let r = particular_spec(ts[i], e, Category::EpisodeTitle, d);
        (ts.update(i, r.0), r.1)
    } else {
        episode_title_from(ts, e, d, i + 1)
    }
}

/// Extracts the episode title from the first remaining unclassified non-bracketed token.
pub fn parse_episode_title(tokens: &mut Vec<Token>, found_elements: &mut Elements, d: &[char])
    ensures
        (tokens_view(final(tokens)@), final(found_elements)@) == episode_title_from(
            tokens_view(old(tokens)@),
            old(found_elements)@,
            d@,
            0,
        ),
        tokens_marked(tokens_view(old(tokens)@), tokens_view(final(tokens)@)),
        grows_with(old(found_elements)@, final(found_elements)@, Category::EpisodeTitle),
        final(found_elements)@.len() <= old(found_elements)@.len() + 1,
{
    proof {
        lemma_tokens_marked_refl(tokens_view(tokens@));
        lemma_grows_refl(found_elements@);
    }
    let ghost tv = tokens_view(tokens@);
    let n = tokens.len();
    let mut i: usize = 0;
    while i < n
        invariant
            n == tokens@.len(),
            0 <= i <= n,
            tokens@ == old(tokens)@,
            found_elements@ == old(found_elements)@,
            tv == tokens_view(old(tokens)@),
            episode_title_from(tv, found_elements@, d@, 0) == episode_title_from(tv, found_elements@, d@, i as int),
        decreases n - i,
    {
        if tokens[i].contains_unknow() && !tokens[i].is_inside_delimiter() {
            let raw = chars_of(tokens[i].raw_token());
            if has_alphanumeric(&raw) {
                proof {
                    let t = tokens@[i as int]@;
                    let w = choose|w: int| 0 <= w < t.subs.len() && (#[trigger] t.subs[w]).1 == SubTokenCategory::Unknow;
                    assert(t.subs[w].1 != SubTokenCategory::Found);
                }
                let ghost before = tokens@;
                parse_particular_string_subtoken(&mut tokens[i], found_elements, Category::EpisodeTitle, d);
                proof {
                    assert(tokens_view(tokens@) =~= tokens_view(before).update(i as int, tokens@[i as int]@));
                    assert forall|j: int| 0 <= j < n implies token_marked(#[trigger] tokens_view(before)[j], tokens_view(tokens@)[j]) by {
                        if j != i {
                            assert forall|k: int| 0 <= k < before[j]@.subs.len() implies sub_marked(#[trigger] before[j]@.subs[k], before[j]@.subs[k]) by {}
                        }
                    }
                }
                return;
            }
        }
        i = i + 1;
    }
}

/// Some token `tokens[j]`, `j < i`, is not in brackets and has an alphabetic character in its
/// raw text (and, when `unknown` holds, an unclassified subtoken).
pub open spec fn text_before(tokens: Seq<TokenView>, i: int, unknown: bool) -> bool {
    exists|j: int| 0 <= j < i && !(#[trigger] tokens[j]).inside && (!unknown || has_unknown(tokens[j])) && any_alphabetic(tokens[j].raw)
}

/// Whether some token before `i` is outside brackets with an alphabetic raw text (and an
/// unclassified subtoken when `unknown` holds).
fn scan_text_before(tokens: &Vec<Token>, i: usize, unknown: bool) -> (r: bool)
    requires
        i <= tokens@.len(),
    ensures
        r == text_before(tokens_view(tokens@), i as int, unknown),
{
    let mut j: usize = 0;
    while j < i
        invariant
            i <= tokens@.len(),
            0 <= j <= i,
            forall|k: int| 0 <= k < j ==> !(!(#[trigger] tokens_view(tokens@)[k]).inside
                && (!unknown || has_unknown(tokens_view(tokens@)[k])) && any_alphabetic(tokens_view(tokens@)[k].raw)),
        decreases i - j,
    {
        let t = &tokens[j];
        if !t.is_inside_delimiter() && (!unknown || t.contains_unknow()) {
            let raw = chars_of(t.raw_token());
            if has_alphabetic(&raw) {
                assert(!tokens_view(tokens@)[j as int].inside);
                return true;
            }
        }
        j = j + 1;
    }
    false
}

/// Some token after `i` is outside brackets with an unclassified subtoken.
pub open spec fn unknown_after(tokens: Seq<TokenView>, i: int) -> bool {
    exists|j: int| i < j < tokens.len() && !(#[trigger] tokens[j]).inside && has_unknown(tokens[j])
}

/// Whether some token after `i` is outside brackets with an unclassified subtoken.
fn scan_unknown_after(tokens: &Vec<Token>, i: usize) -> (r: bool)
    requires
        i < tokens@.len(),
    ensures
        r == unknown_after(tokens_view(tokens@), i as int),
{
    let n = tokens.len();
    let mut j = i + 1;
    while j < n
        invariant
            n == tokens@.len(),
            i < j <= n,
            forall|k: int| i < k < j ==> !(!(#[trigger] tokens_view(tokens@)[k]).inside && has_unknown(tokens_view(tokens@)[k])),
        decreases n - j,
    {
        if !tokens[j].is_inside_delimiter() && tokens[j].contains_unknow() {
            assert(!tokens_view(tokens@)[j as int].inside && has_unknown(tokens_view(tokens@)[j as int]));
            return true;
        }
        j = j + 1;
    }
    false
}

/// Token `i` can hold the release group: in brackets (neither a parenthesised single subtoken nor
/// a corner bracket), with unclassified subtokens (or none at all), and not between text before it
/// and unclassified tokens after it.
pub open spec fn group_slot(ts: Seq<TokenView>, i: int) -> bool {
    let t = ts[i];
    &&& t.inside
    &&& !t.weak
    &&& !t.corner
    &&& (all_unknown(t) || has_unknown(t))
    &&& !(text_before(ts, i, true) && unknown_after(ts, i))
}

/// The first token from `i` on that can hold the release group.
pub open spec fn first_group_slot(ts: Seq<TokenView>, i: int) -> Option<int>
    decreases ts.len() - i,
{
    if i >= ts.len() {
        None
    } else if group_slot(ts, i) {
        Some(i)
    } else {
        first_group_slot(ts, i + 1)
    }
}

/// The first position from `p` on of a subtoken reading "BY" in upper case.
pub open spec fn by_position(subs: Seq<SubTokenView>, p: int) -> Option<int>
    decreases subs.len() - p,
{
    if p >= subs.len() {
        None
    } else if upper_of(subs[p].0) == "BY"@ {
        Some(p)
    } else {
        by_position(subs, p + 1)
    }
}

/// The texts of subtokens `from..to` joined by spaces.
pub open spec fn joined_text(subs: Seq<SubTokenView>, from: int, to: int) -> Seq<char>
    decreases to - from,
{
    if to <= from {
        Seq::empty()
    } else if to == from + 1 {
        subs[from].0
    } else {
        joined_text(subs, from, to - 1).push(' ') + subs[to - 1].0
    }
}

/// The release group read from the first token that can hold it: a token of unclassified
/// subtokens is the group (what follows a "BY" in it, or its whole raw text); otherwise, when no
/// text comes before it (or it is in parentheses), its unclassified run is.
pub open spec fn group_main_spec(ts: Seq<TokenView>, e: Seq<ElementView>, d: Seq<char>) -> (Seq<TokenView>, Seq<ElementView>) {
    match first_group_slot(ts, 0) {
        None => (ts, e),
        Some(i) => {
            let t = ts[i];
            let len = t.subs.len() as int;
            let by = by_position(t.subs, 0);
            if all_unknown(t) {
                if by is Some && by.unwrap() > 0 && by.unwrap() + 1 < len {
                    (ts.update(i, mark_range(t, 0, len)), e.push((Category::ReleaseGroup, joined_text(t.subs, by.unwrap() + 1, len))))
                } else {
                    (ts.update(i, mark_range(t, 0, len)), e.push((Category::ReleaseGroup, t.raw)))
                }
            } else if !text_before(ts, i, true) || t.paren {
                if (t.paren && text_before(ts, i, false)) || !text_before(ts, i, false) {
                    let r = particular_spec(t, e, Category::ReleaseGroup, d);
                    (ts.update(i, r.0), r.1)
                } else {
                    (ts, e)
                }
            } else {
                (ts, e)
            }
        },
    }
}

/// The last position before `k` of an unclassified, purely alphabetic subtoken of two bytes or more.
pub open spec fn last_alpha_word(subs: Seq<SubTokenView>, k: int) -> Option<int>
    decreases k,
{
    if k <= 0 {
        None
    } else if subs[k - 1].1 == SubTokenCategory::Unknow && utf8_len(subs[k - 1].0) >= 2 && all_alphabetic(subs[k - 1].0) {
        Some(k - 1)
    } else {
        last_alpha_word(subs, k - 1)
    }
}

/// Every subtoken from `from` on is found or empty.
pub open spec fn all_after_found(subs: Seq<SubTokenView>, from: int) -> bool {
    forall|q: int| from <= q < subs.len() ==> (#[trigger] subs[q]).1 == SubTokenCategory::Found || subs[q].0.len() == 0
}

/// The subtoken of `t` that the `codec-GROUP` fallback takes: in a token outside brackets, the
/// last unclassified alphabetic word of two bytes or more, right after a found subtoken, with
/// nothing unclassified after it, written after a `-` in the raw text.
pub open spec fn fallback_at(t: TokenView) -> Option<int> {
    if t.inside || t.weak || t.corner {
        None
    } else {
        match last_alpha_word(t.subs, t.subs.len() as int) {
            None => None,
            Some(idx) => if idx > 0 && t.subs[idx - 1].1 == SubTokenCategory::Found && all_after_found(t.subs, idx + 1)
                && occurs_in(t.raw, seq!['-'] + t.subs[idx].0) {
                Some(idx)
            } else {
                None
            },
        }
    }
}

/// The `codec-GROUP` fallback over tokens `ti..`: the first one it takes.
pub open spec fn fallback_spec(ts: Seq<TokenView>, e: Seq<ElementView>, ti: int) -> (Seq<TokenView>, Seq<ElementView>)
    decreases ts.len() - ti,
{
    if ti >= ts.len() {
        (ts, e)
    } else {
        match fallback_at(ts[ti]) {
            Some(idx) => (mark_tokens(ts, ti, idx), e.push((Category::ReleaseGroup, ts[ti].subs[idx].0))),
            None => fallback_spec(ts, e, ti + 1),
        }
    }
}

/// What `parse_release_group` does: nothing when a release group is known; otherwise the main
/// rule (see `group_main_spec`), then the `codec-GROUP` fallback when that found none.
pub open spec fn release_group_spec(ts: Seq<TokenView>, e: Seq<ElementView>, d: Seq<char>) -> (Seq<TokenView>, Seq<ElementView>) {
    if has_category(e, Category::ReleaseGroup) {
        (ts, e)
    } else {
        let r = group_main_spec(ts, e, d);
        if !has_category(r.1, Category::ReleaseGroup) {
            fallback_spec(r.0, r.1, 0)
        } else {
            r
        }
    }
}

/// Extracts the release group from bracketed tokens, falling back to a `codec-GROUP` heuristic.
pub fn parse_release_group(tokens: &mut Vec<Token>, found_elements: &mut Elements, d: &[char])
    ensures
        (tokens_view(final(tokens)@), final(found_elements)@) == release_group_spec(
            tokens_view(old(tokens)@),
            old(found_elements)@,
            d@,
        ),
        tokens_marked(tokens_view(old(tokens)@), tokens_view(final(tokens)@)),
        grows_with(old(found_elements)@, final(found_elements)@, Category::ReleaseGroup),
        final(found_elements)@.len() <= old(found_elements)@.len() + 1,
        has_category(old(found_elements)@, Category::ReleaseGroup) ==> final(found_elements)@ == old(found_elements)@
            && final(tokens)@ == old(tokens)@,
{
    proof {
        lemma_tokens_marked_refl(tokens_view(tokens@));
        lemma_grows_refl(found_elements@);
    }
    if !found_elements.is_category_empty(Category::ReleaseGroup) {
        return;
    }
    let ghost tv = tokens_view(tokens@);
    let n = tokens.len();
    let mut rg_index: Option<usize> = None;
    let mut rg_has_before = false;
    let mut rg_has_raw_alpha_before = false;
    let mut i: usize = 0;
    while i < n
        invariant_except_break
            first_group_slot(tv, 0) == first_group_slot(tv, i as int),
            rg_index is None,
        invariant
            n == tokens@.len(),
            0 <= i <= n,
            tokens@ == old(tokens)@,
            tv == tokens_view(old(tokens)@),
            rg_index matches Some(q) ==> q < n && (all_unknown(tokens@[q as int]@) || has_unknown(tokens@[q as int]@)),
        ensures
            match rg_index {
                Some(q) => first_group_slot(tv, 0) == Some(q as int) && rg_has_before == text_before(tv, q as int, true)
                    && rg_has_raw_alpha_before == text_before(tv, q as int, false),
                None => first_group_slot(tv, 0) is None,
            },
        decreases n - i,
    {
        if !tokens[i].is_inside_delimiter() || tokens[i].is_weak() || tokens[i].is_japanese_corner() {
            i = i + 1;
            continue;
        }
        if !tokens[i].is_full_unknow() && !tokens[i].contains_unknow() {
            i = i + 1;
            continue;
        }
        let has_before = scan_text_before(tokens, i, true);
        let has_raw_alphabetic_before = scan_text_before(tokens, i, false);
        let has_after = scan_unknown_after(tokens, i);
        if has_before && has_after {
            i = i + 1;
            continue;
        }
        rg_index = Some(i);
        rg_has_before = has_before;
        rg_has_raw_alpha_before = has_raw_alphabetic_before;
        break;
    }
    let ghost start_tokens = tokens@;
    let ghost start_elems = found_elements@;
    if let Some(i) = rg_index {
        assert(i < n);
        let ghost t = tv[i as int];
        if tokens[i].is_full_unknow() {
            let m = tokens[i].len();
            let mut by_pos: Option<usize> = None;
            let mut p: usize = 0;
            while p < m
                invariant_except_break
                    by_position(t.subs, 0) == by_position(t.subs, p as int),
                    by_pos is None,
                invariant
                    m == tokens@[i as int]@.subs.len(),
                    i < tokens@.len(),
                    tokens@ == old(tokens)@,
                    t == tokens@[i as int]@,
                    0 <= p <= m,
                    by_pos matches Some(q) ==> q < m,
                ensures
                    by_pos matches Some(q) ==> by_position(t.subs, 0) == Some(q as int),
                    by_pos is None ==> by_position(t.subs, 0) is None,
                decreases m - p,
            {
                let upper = to_upper(tokens[i].sub_value(p));
                if str_eq(upper.as_str(), "BY") {
                    by_pos = Some(p);
                    break;
                }
                p = p + 1;
            }
            if let Some(p) = by_pos {
                if p > 0 && m - p > 1 {
                    let mut g: Vec<char> = Vec::new();
                    let mut k = p + 1;
                    while k < m
                        invariant
                            m == tokens@[i as int]@.subs.len(),
                            i < tokens@.len(),
                            tokens@ == old(tokens)@,
                            t == tokens@[i as int]@,
                            p + 1 <= k <= m,
                            g@ == joined_text(t.subs, p + 1, k as int),
                        decreases m - k,
                    {
                        if k > p + 1 {
                            g.push(' ');
                        }
                        let v = chars_of(tokens[i].sub_value(k));
                        extend(&mut g, &v);
                        k = k + 1;
                    }
                    mark_all(tokens, i);
                    found_elements.push_chars(Category::ReleaseGroup, &g);
                    assert(found_elements@.subrange(0, old(found_elements)@.len() as int) =~= old(found_elements)@);
                    assert(found_elements@[old(found_elements)@.len() as int].0 == Category::ReleaseGroup);
                    return;
                }
            }
            let raw = string_of(&chars_of(tokens[i].raw_token()));
            mark_all(tokens, i);
            found_elements.push(Category::ReleaseGroup, raw.as_str());
            assert(found_elements@.subrange(0, old(found_elements)@.len() as int) =~= old(found_elements)@);
        } else if !rg_has_before || tokens[i].is_paren() {
            if tokens[i].is_paren() && rg_has_raw_alpha_before || !rg_has_raw_alpha_before {
                proof {
                    let t = tokens@[i as int]@;
                    let w = choose|w: int| 0 <= w < t.subs.len() && (#[trigger] t.subs[w]).1 == SubTokenCategory::Unknow;
                    assert(t.subs[w].1 != SubTokenCategory::Found);
                }
                let ghost before = tokens@;
                parse_particular_string_subtoken(&mut tokens[i], found_elements, Category::ReleaseGroup, d);
                proof {
                    assert(tokens_view(tokens@) =~= tokens_view(before).update(i as int, tokens@[i as int]@));
                    assert forall|j: int| 0 <= j < n implies token_marked(#[trigger] tokens_view(before)[j], tokens_view(tokens@)[j]) by {
                        if j != i {
                            assert forall|k: int| 0 <= k < before[j]@.subs.len() implies sub_marked(#[trigger] before[j]@.subs[k], before[j]@.subs[k]) by {}
                        }
                    }
                }
            }
        }
    }
    let ghost mid_tokens = tokens@;
    let ghost mid_elems = found_elements@;
    assert((tokens_view(mid_tokens), mid_elems) == group_main_spec(tv, old(found_elements)@, d@));
    assert(mid_elems.len() <= old(found_elements)@.len() + 1);
    if found_elements.is_category_empty(Category::ReleaseGroup) {
        proof {
            if mid_elems.len() > old(found_elements)@.len() {
                assert(mid_elems[old(found_elements)@.len() as int].0 == Category::ReleaseGroup);
            }
        }
        fallback_release_group(tokens, found_elements);
        proof {
            lemma_tokens_marked_trans(tokens_view(old(tokens)@), tokens_view(mid_tokens), tokens_view(tokens@));
            lemma_grows_with_trans(old(found_elements)@, mid_elems, found_elements@, Category::ReleaseGroup);
        }
    }
}

/// The `codec-GROUP` fallback (see `fallback_spec`).
fn fallback_release_group(tokens: &mut Vec<Token>, found_elements: &mut Elements)
    requires
        !has_category(old(found_elements)@, Category::ReleaseGroup),
    ensures
        (tokens_view(final(tokens)@), final(found_elements)@) == fallback_spec(
            tokens_view(old(tokens)@),
            old(found_elements)@,
            0,
        ),
        tokens_marked(tokens_view(old(tokens)@), tokens_view(final(tokens)@)),
        grows_with(old(found_elements)@, final(found_elements)@, Category::ReleaseGroup),
        final(found_elements)@.len() <= old(found_elements)@.len() + 1,
{
    proof {
        lemma_tokens_marked_refl(tokens_view(tokens@));
        lemma_grows_refl(found_elements@);
    }
    let ghost tv = tokens_view(tokens@);
    let n = tokens.len();
    let mut ti: usize = 0;
    while ti < n
        invariant
            n == tokens@.len(),
            0 <= ti <= n,
            tokens@ == old(tokens)@,
            found_elements@ == old(found_elements)@,
            tv == tokens_view(old(tokens)@),
            fallback_spec(tv, found_elements@, 0) == fallback_spec(tv, found_elements@, ti as int),
        decreases n - ti,
    {
        let ghost t = tv[ti as int];
        if tokens[ti].is_inside_delimiter() || tokens[ti].is_weak() || tokens[ti].is_japanese_corner() {
            ti = ti + 1;
            continue;
        }
        let m = tokens[ti].len();
        let mut candidate: Option<usize> = None;
        let mut k = m;
        while k > 0
            invariant_except_break
                last_alpha_word(t.subs, m as int) == last_alpha_word(t.subs, k as int),
                candidate is None,
            invariant
                m == tokens@[ti as int]@.subs.len(),
                ti < tokens@.len(),
                tokens@ == old(tokens)@,
                t == tokens@[ti as int]@,
                0 <= k <= m,
                candidate matches Some(q) ==> q < m,
            ensures
                candidate matches Some(q) ==> last_alpha_word(t.subs, m as int) == Some(q as int),
                candidate is None ==> last_alpha_word(t.subs, m as int) is None,
            decreases k,
        {
            let idx = k - 1;
            if tokens[ti].sub_is(idx, SubTokenCategory::Unknow) {
                let v = chars_of(tokens[ti].sub_value(idx));
                if utf8_len_capped(&v, 2) >= 2 && only_alphabetic(&v) {
                    candidate = Some(idx);
                    break;
                }
            }
            k = k - 1;
        }
        if let Some(idx) = candidate {
            let prev_is_found = idx > 0 && tokens[ti].sub_is(idx - 1, SubTokenCategory::Found);
            if !prev_is_found {
                ti = ti + 1;
                continue;
            }
            let mut all_after = true;
            let mut q = idx + 1;
            while q < m
                invariant_except_break
                    all_after,
                    forall|j: int| idx + 1 <= j < q ==> (#[trigger] t.subs[j]).1 == SubTokenCategory::Found || t.subs[j].0.len() == 0,
                invariant
                    m == tokens@[ti as int]@.subs.len(),
                    ti < tokens@.len(),
                    tokens@ == old(tokens)@,
                    t == tokens@[ti as int]@,
                    idx + 1 <= q <= m,
                ensures
                    all_after == all_after_found(t.subs, idx + 1),
                decreases m - q,
            {
                if !tokens[ti].sub_is(q, SubTokenCategory::Found) && chars_of(tokens[ti].sub_value(q)).len() != 0 {
                    all_after = false;
                    break;
                }
                q = q + 1;
            }
            if !all_after {
                ti = ti + 1;
                continue;
            }
            let group = chars_of(tokens[ti].sub_value(idx));
            let raw = chars_of(tokens[ti].raw_token());
            let mut dash_group: Vec<char> = Vec::new();
            dash_group.push('-');
            extend(&mut dash_group, &group);
            assert(dash_group@ =~= seq!['-'] + group@);
            if !contains_seq(&raw, &dash_group) {
                ti = ti + 1;
                continue;
            }
            mark_sub(tokens, ti, idx);
            found_elements.push_chars(Category::ReleaseGroup, &group);
            assert(found_elements@.subrange(0, old(found_elements)@.len() as int) =~= old(found_elements)@);
            return;
        }
        ti = ti + 1;
    }
}

/// The text tried for a two-part keyword joined by `sep`: `left`, `sep`, `right`, trimmed of
/// whitespace.
pub open spec fn joined_keyword(left: Seq<char>, sep: char, right: Seq<char>) -> Seq<char> {
    trim_ws(left.push(sep) + right)
}

/// The category a two-part keyword joined by `sep` is recorded under: its keyword's category,
/// when that is looked for and, if it holds one value only, not yet found.
pub open spec fn joined_category(e: Seq<ElementView>, left: Seq<char>, sep: char, right: Seq<char>) -> Option<Category> {
    match keyword_of(joined_keyword(left, sep, right)) {
        Some(kw) => if kw.category.searchable() && !(!kw.category.multi_valued() && has_category(e, kw.category)) {
            Some(kw.category)
        } else {
            None
        },
        None => None,
    }
}

/// The element a two-part keyword yields: the first of the separators `.`, space, `-`, `_`
/// that gives a recorded category.
pub open spec fn multiple_keyword_spec(e: Seq<ElementView>, left: Seq<char>, right: Seq<char>) -> Option<ElementView> {
    if joined_category(e, left, '.', right) is Some {
        Some((joined_category(e, left, '.', right).unwrap(), joined_keyword(left, '.', right)))
    } else if joined_category(e, left, ' ', right) is Some {
        Some((joined_category(e, left, ' ', right).unwrap(), joined_keyword(left, ' ', right)))
    } else if joined_category(e, left, '-', right) is Some {
        Some((joined_category(e, left, '-', right).unwrap(), joined_keyword(left, '-', right)))
    } else if joined_category(e, left, '_', right) is Some {
        Some((joined_category(e, left, '_', right).unwrap(), joined_keyword(left, '_', right)))
    } else {
        None
    }
}

/// Tries `left`, `sep`, `right` as one keyword.
fn try_joined(e: &mut Elements, keyword_manager: &Manager, left: &Vec<char>, sep: char, right: &Vec<char>) -> (r: bool)
    requires
        keyword_manager@ == crate::keyword::keyword_table(),
    ensures
        match joined_category(old(e)@, left@, sep, right@) {
            Some(c) => r && final(e)@ == old(e)@.push((c, joined_keyword(left@, sep, right@))),
            None => !r && final(e)@ == old(e)@,
        },
{
    let mut buf = slice_of(left, 0, left.len());
    assert(left@.subrange(0, left@.len() as int) =~= left@);
    buf.push(sep);
    let buf = concat(&buf, right);
    let trimmed_buf = trim_whitespace(&buf);
    let text = string_of(&trimmed_buf);
    match keyword_manager.find(text.as_str()) {
        Some(found) => {
            let category = found.get_category();
            let ok = category.is_searchable() && !(category.is_singular() && !e.is_category_empty(category));
            if ok {
                e.push(category, text.as_str());
                return true;
            }
            false
        },
        None => false,
    }
}

/// Tries to match a two-part keyword (`left` + `right`) and pushes the result into `e`; returns `true` on match.
pub fn parse_multiple_keyword(e: &mut Elements, keyword_manager: &Manager, left: &str, right: &str) -> (r: bool)
    ensures
        match multiple_keyword_spec(old(e)@, left@, right@) {
            Some(x) => r && final(e)@ == old(e)@.push(x),
            None => !r && final(e)@ == old(e)@,
        },
{
    proof {
        use_type_invariant(keyword_manager);
    }
    let l = chars_of(left);
    let rr = chars_of(right);
    if try_joined(e, keyword_manager, &l, '.', &rr) {
        return true;
    }
    if try_joined(e, keyword_manager, &l, ' ', &rr) {
        return true;
    }
    if try_joined(e, keyword_manager, &l, '-', &rr) {
        return true;
    }
    if try_joined(e, keyword_manager, &l, '_', &rr) {
        return true;
    }
    false
}

/// Appends `text` as an anime title.
fn push_title(found_elements: &mut Elements, text: &Vec<char>)
    ensures
        final(found_elements)@ == old(found_elements)@.push((Category::AnimeTitle, text@)),
        grows_with(old(found_elements)@, final(found_elements)@, Category::AnimeTitle),
        final(found_elements)@.len() == old(found_elements)@.len() + 1,
{
    found_elements.push_chars(Category::AnimeTitle, text);
    assert(found_elements@.subrange(0, old(found_elements)@.len() as int) =~= old(found_elements)@);
}

// ── the title of one token and of the tokens after it ────────────────────────

/// Where the leading ASCII letters of `s` end: `k` letters, then a non-letter or the end.
pub open spec fn is_alpha_prefix_end(s: Seq<char>, k: int) -> bool {
    &&& 0 <= k <= s.len()
    &&& forall|j: int| 0 <= j < k ==> is_ascii_alpha(#[trigger] s[j])
    &&& (k < s.len() ==> !is_ascii_alpha(s[k]))
}

/// The number of leading ASCII letters of `s`.
pub open spec fn alpha_prefix_len(s: Seq<char>) -> int {
    choose|k: int| is_alpha_prefix_end(s, k)
}

/// There is one end of the leading letters.
proof fn lemma_alpha_prefix_unique(s: Seq<char>, k: int)
    requires
        is_alpha_prefix_end(s, k),
    ensures
        alpha_prefix_len(s) == k,
{
    let c = alpha_prefix_len(s);
    if c < k {
        assert(is_ascii_alpha(s[c]));
    }
    if k < c {
        assert(is_ascii_alpha(s[k]));
    }
}

/// A clean episode suffix: non-empty, with a digit, and only digits and dots.
pub open spec fn episode_suffix(s: Seq<char>) -> bool {
    &&& s.len() > 0
    &&& exists|i: int| 0 <= i < s.len() && is_ascii_digit(#[trigger] s[i])
    &&& forall|i: int| 0 <= i < s.len() ==> is_ascii_digit(#[trigger] s[i]) || s[i] == '.'
}

/// `s` starts with an uppercase character.
pub open spec fn upper_start(s: Seq<char>) -> bool {
    s.len() > 0 && uppercase(s[0])
}

/// One step of the title in its first token, at subtoken `k` of `t`: the new token, the new
/// title, and whether the title ends here.
///
/// A found subtoken ends the title; a symbol before a found subtoken is dropped; a short piece
/// written `A.B` or `1-2`/`Word-Word` in the raw text is glued with its `.` or `-`; an
/// alphabetic prefix with an episode suffix (`EX01`, `OVA3.5`) keeps its prefix when the suffix is
/// the episode found, and another keyword prefix ends the title; anything else is added after a
/// space.
#[verifier::opaque]
pub open spec fn title_step(t: TokenView, title: Seq<char>, k: int, e: Seq<ElementView>, d: Seq<char>) -> (TokenView, Seq<char>, bool) {
    let len = t.subs.len() as int;
    let cur = t.subs[k].0;
    let marked = mark_token(t, k);
    let next_is_found = k + 1 < len && t.subs[k + 1].1 == SubTokenCategory::Found;
    let tt = trim_start_ws(title);
    let lsw = last_segment(tt, ' ');
    let pls = last_segment(lsw, '.');
    let glue_dot = d.contains('.') && title.len() > 0 && utf8_len(cur) <= 2 && utf8_len(pls) <= 2 && pls.len() > 0
        && occurs_in(t.raw, lsw.push('.') + cur);
    let single_digits = utf8_len(lsw) == 1 && utf8_len(cur) == 1 && only_ascii_digits(lsw) && only_ascii_digits(cur);
    let alpha_words = utf8_len(lsw) >= 2 && utf8_len(cur) >= 2 && all_alphabetic(lsw) && all_alphabetic(cur)
        && upper_start(lsw) && upper_start(cur) && next_is_found;
    let glue_dash = d.contains('-') && title.len() > 0 && lsw.len() > 0 && (single_digits || alpha_words)
        && occurs_in(t.raw, lsw.push('-') + cur);
    let al = alpha_prefix_len(cur);
    let prefix = cur.subrange(0, al);
    let suffix = cur.subrange(al, cur.len() as int);
    let split = cur.len() > 0 && al > 0 && al < cur.len() && keyword_of(prefix) is Some;
    let kw = keyword_of(prefix).unwrap();
    let episode_kind = (kw.category == Category::EpisodePrefix && !kw.valid) || (kw.category == Category::AnimeType
        && kw.valid && kw.searchable);
    let ep = first_of(e, Category::EpisodeNumber);
    let keeps_prefix = episode_suffix(suffix) && has_category(e, Category::EpisodeNumber) && ep is Some && (ep.unwrap().1
        == suffix || first_segment(ep.unwrap().1, '.') == suffix);
    if t.subs[k].1 == SubTokenCategory::Found {
        (t, title, true)
    } else if next_is_found && !any_alphanumeric(cur) {
        (marked, title, false)
    } else if glue_dot {
        (marked, title.push('.') + cur, false)
    } else if glue_dash {
        (marked, title.push('-') + cur, false)
    } else if split && episode_kind && keeps_prefix {
        (marked, title.push(' ') + prefix, false)
    } else if split && !episode_kind {
        (marked, title, true)
    } else {
        (marked, title.push(' ') + cur, false)
    }
}

/// The title in its first token, over subtokens `k..len`.
pub open spec fn first_token_scan(t: TokenView, title: Seq<char>, k: int, len: int, e: Seq<ElementView>, d: Seq<char>) -> (TokenView, Seq<char>, bool)
    decreases len - k,
{
    if k >= len {
        (t, title, false)
    } else {
        let r = title_step(t, title, k, e, d);
        if r.2 {
            r
        } else {
            first_token_scan(r.0, r.1, k + 1, len, e, d)
        }
    }
}

/// The rest of a following token, over subtokens `k..count`: each is added after a space until a
/// found one ends the title.
pub open spec fn rest_scan(t: TokenView, title: Seq<char>, k: int, count: int) -> (TokenView, Seq<char>, bool)
    decreases count - k,
{
    if k >= count {
        (t, title, false)
    } else if t.subs[k].1 == SubTokenCategory::Found {
        (t, title, true)
    } else {
        rest_scan(mark_token(t, k), title.push(' ') + t.subs[k].0, k + 1, count)
    }
}

/// A bracketed token directly followed by an unclassified token outside brackets.
pub open spec fn embedded_bracket(ts: Seq<TokenView>, j: int) -> bool {
    ts[j].inside && !ts[j].weak && j + 1 < ts.len() && !ts[j + 1].inside && has_unknown(ts[j + 1])
}

/// The title continued into token `j`: it ends at a token without unclassified subtokens, at a
/// bracketed one (unless parenthesised alone or embedded), or at a found subtoken; a parenthesised
/// or embedded token is added in its brackets, and a token starting with `- ` after a ` - `.
#[verifier::opaque]
pub open spec fn follow_token(ts: Seq<TokenView>, title: Seq<char>, j: int, d: Seq<char>) -> (Seq<TokenView>, Seq<char>, bool) {
    let t = ts[j];
    let embedded = embedded_bracket(ts, j);
    let prev_raw = ts[j - 1].raw;
    let last_char = if prev_raw.len() > 0 { prev_raw.last() } else { ' ' };
    let stripped = trim_start(t.raw, seq![' ']);
    let starts_dash = d.contains('-') && 2 <= stripped.len() && stripped.subrange(0, 2) == seq!['-', ' '];
    let first = t.subs[0].0;
    let space = if d.contains(last_char) { title.push(' ') } else { title };
    let opened = if t.weak {
        space.push('(') + first
    } else if embedded {
        space.push('[') + first
    } else if starts_dash {
        title.push(' ').push('-').push(' ') + first
    } else {
        title.push(' ') + first
    };
    if !has_unknown(t) || (t.inside && !t.weak && !embedded) || t.subs[0].1 == SubTokenCategory::Found {
        (ts, title, true)
    } else {
        close_follow(ts, j, rest_scan(mark_token(t, 0), opened, 1, t.subs.len() as int), t.weak, embedded)
    }
}

/// The end of a following token: its closing bracket when it was parenthesised or embedded and
/// the title goes on.
pub open spec fn close_follow(ts: Seq<TokenView>, j: int, r: (TokenView, Seq<char>, bool), weak: bool, embedded: bool) -> (Seq<TokenView>, Seq<char>, bool) {
    let closed = if weak { r.1.push(')') } else if embedded { r.1.push(']') } else { r.1 };
    (ts.update(j, r.0), if r.2 { r.1 } else { closed }, r.2)
}

/// The title continued over tokens `j..n`.
pub open spec fn follow_scan(ts: Seq<TokenView>, title: Seq<char>, j: int, n: int, d: Seq<char>) -> (Seq<TokenView>, Seq<char>)
    decreases n - j,
{
    if j >= n {
        (ts, title)
    } else {
        let r = follow_token(ts, title, j, d);
        if r.2 {
            (r.0, r.1)
        } else {
            follow_scan(r.0, r.1, j + 1, n, d)
        }
    }
}

/// What `find_anime_title` does from token `ti`: the tokens afterwards and the title, trimmed of
/// delimiters.
pub open spec fn find_title_spec(ts: Seq<TokenView>, ti: int, e: Seq<ElementView>, d: Seq<char>) -> (Seq<TokenView>, Seq<char>) {
    let t = ts[ti];
    let a = first_token_scan(t, Seq::empty(), found_run_end(t.subs, 0), t.subs.len() as int, e, d);
    let ts1 = ts.update(ti, a.0);
    if a.2 {
        (ts1, trimmed(a.1, d))
    } else {
        let b = follow_scan(ts1, a.1, ti + 1, ts.len() as int, d);
        (b.0, trimmed(b.1, d))
    }
}

// ── choosing where the title starts ──────────────────────────────────────────

/// An unclassified, non-empty subtoken.
pub open spec fn is_unknown_text(s: SubTokenView) -> bool {
    s.1 == SubTokenCategory::Unknow && s.0.len() > 0
}

/// How many of subtokens `0..k` are unclassified and non-empty.
pub open spec fn unknown_text_count(subs: Seq<SubTokenView>, k: int) -> nat
    decreases k,
{
    if k <= 0 {
        0
    } else {
        unknown_text_count(subs, k - 1) + if is_unknown_text(subs[k - 1]) { 1nat } else { 0nat }
    }
}

/// The first position from `k` on of an unclassified, non-empty subtoken (or the end).
pub open spec fn first_unknown_text(subs: Seq<SubTokenView>, k: int) -> int
    decreases subs.len() - k,
{
    if k >= subs.len() || is_unknown_text(subs[k]) {
        k
    } else {
        first_unknown_text(subs, k + 1)
    }
}

/// The only unclassified, non-empty subtoken of `t` is a number.
pub open spec fn lone_number(t: TokenView) -> bool {
    unknown_text_count(t.subs, t.subs.len() as int) == 1 && only_ascii_digits(t.subs[first_unknown_text(t.subs, 0)].0)
}

/// Token `t` with its unclassified, non-empty subtokens before `q` found.
pub open spec fn mark_unknown_texts_upto(t: TokenView, q: int) -> TokenView {
    TokenView {
        subs: Seq::new(
            t.subs.len(),
            |i: int|
                if i < q && is_unknown_text(t.subs[i]) {
                    (t.subs[i].0, SubTokenCategory::Found)
                } else {
                    t.subs[i]
                },
        ),
        ..t
    }
}

/// Token `t` with its unclassified, non-empty subtokens found.
pub open spec fn mark_unknown_texts(t: TokenView) -> TokenView {
    mark_unknown_texts_upto(t, t.subs.len() as int)
}

/// The first position from `k` on of an unclassified subtoken (or the end).
pub open spec fn first_unknown(subs: Seq<SubTokenView>, k: int) -> int
    decreases subs.len() - k,
{
    if k >= subs.len() || subs[k].1 == SubTokenCategory::Unknow {
        k
    } else {
        first_unknown(subs, k + 1)
    }
}

/// How many of subtokens `0..k` are unclassified.
pub open spec fn unknown_count(subs: Seq<SubTokenView>, k: int) -> nat
    decreases k,
{
    if k <= 0 {
        0
    } else {
        unknown_count(subs, k - 1) + if subs[k - 1].1 == SubTokenCategory::Unknow { 1nat } else { 0nat }
    }
}

/// The first token from `i` on in corner brackets with an unclassified subtoken.
pub open spec fn first_corner(ts: Seq<TokenView>, i: int) -> int
    decreases ts.len() - i,
{
    if i >= ts.len() || (ts[i].corner && ts[i].inside && has_unknown(ts[i])) {
        i
    } else {
        first_corner(ts, i + 1)
    }
}

/// Tokens `ts` with every token from `j` on that is outside brackets wholly found.
pub open spec fn mark_outside_after(ts: Seq<TokenView>, j: int) -> Seq<TokenView>
    decreases ts.len() - j,
{
    if !(0 <= j < ts.len()) {
        ts
    } else if !ts[j].inside {
        mark_outside_after(ts.update(j, mark_range(ts[j], 0, ts[j].subs.len() as int)), j + 1)
    } else {
        mark_outside_after(ts, j + 1)
    }
}

/// The first token from `i` on in brackets with an unclassified subtoken (or the end).
pub open spec fn next_bracketed(ts: Seq<TokenView>, i: int) -> int
    decreases ts.len() - i,
{
    if i >= ts.len() || (has_unknown(ts[i]) && ts[i].inside) {
        i
    } else {
        next_bracketed(ts, i + 1)
    }
}

/// Without a title outside brackets: of the first two bracketed tokens with unclassified
/// subtokens, the title starts at the first when it has more of them, else at the second.
pub open spec fn bracket_title_spec(ts: Seq<TokenView>, e: Seq<ElementView>, d: Seq<char>) -> (Seq<TokenView>, Seq<ElementView>) {
    let f = next_bracketed(ts, 0);
    let s = next_bracketed(ts, f + 1);
    if f < ts.len() && s < ts.len() {
        let idx = if unknown_count(ts[f].subs, ts[f].subs.len() as int) > unknown_count(ts[s].subs, ts[s].subs.len() as int) {
            f
        } else {
            s
        };
        let r = find_title_spec(ts, idx, e, d);
        (r.0, e.push((Category::AnimeTitle, r.1)))
    } else {
        (ts, e)
    }
}

/// The title outside brackets, over tokens `k..`: the first token outside brackets with an
/// unclassified subtoken and a letter or digit starts it, unless its only unclassified text is a
/// number (then that number is found and the search goes on) or, with an episode number known,
/// it starts with something already found.
pub open spec fn title_scan(ts: Seq<TokenView>, e: Seq<ElementView>, k: int, d: Seq<char>) -> (Seq<TokenView>, Seq<ElementView>)
    decreases ts.len() - k,
{
    if !(0 <= k < ts.len()) {
        bracket_title_spec(ts, e, d)
    } else {
        let t = ts[k];
        if !has_unknown(t) || t.inside || !any_alphanumeric(t.raw) {
            title_scan(ts, e, k + 1, d)
        } else if lone_number(t) {
            title_scan(ts.update(k, mark_unknown_texts(t)), e, k + 1, d)
        } else if has_category(e, Category::EpisodeNumber) && first_unknown(t.subs, 0) < t.subs.len() && first_unknown(
            t.subs,
            0,
        ) > 0 {
            title_scan(ts, e, k + 1, d)
        } else {
            let r = find_title_spec(ts, k, e, d);
            (r.0, e.push((Category::AnimeTitle, r.1)))
        }
    }
}

/// What `parse_anime_title` does: a token in corner brackets is the whole title (and the tokens
/// outside brackets after it are found); otherwise see `title_scan`.
pub open spec fn anime_title_spec(ts: Seq<TokenView>, e: Seq<ElementView>, d: Seq<char>) -> (Seq<TokenView>, Seq<ElementView>) {
    let i = first_corner(ts, 0);
    if i < ts.len() {
        let t = ts[i];
        let marked = mark_outside_after(ts.update(i, mark_range(t, 0, t.subs.len() as int)), i + 1);
        (marked, e.push((Category::AnimeTitle, seq!['「'] + t.raw + seq!['」'])))
    } else {
        title_scan(ts, e, 0, d)
    }
}

/// Extracts the anime title from the token list and pushes it into `found_elements`.
pub fn parse_anime_title(tokens: &mut Vec<Token>, found_elements: &mut Elements, d: &[char])
    ensures
        (tokens_view(final(tokens)@), final(found_elements)@) == anime_title_spec(
            tokens_view(old(tokens)@),
            old(found_elements)@,
            d@,
        ),
        tokens_marked(tokens_view(old(tokens)@), tokens_view(final(tokens)@)),
        grows_with(old(found_elements)@, final(found_elements)@, Category::AnimeTitle),
        final(found_elements)@.len() <= old(found_elements)@.len() + 1,
{
    let m = Manager::new();
    parse_anime_title_with(&m, tokens, found_elements, d)
}

/// The corner-bracket title of token `i`: marks it and the tokens outside brackets after it.
fn corner_title(tokens: &mut Vec<Token>, i: usize, found_elements: &mut Elements)
    requires
        i < old(tokens)@.len(),
    ensures
        tokens_view(final(tokens)@) == mark_outside_after(
            tokens_view(old(tokens)@).update(
                i as int,
                mark_range(old(tokens)@[i as int]@, 0, old(tokens)@[i as int]@.subs.len() as int),
            ),
            i + 1,
        ),
        final(found_elements)@ == old(found_elements)@.push(
            (Category::AnimeTitle, seq!['「'] + old(tokens)@[i as int]@.raw + seq!['」']),
        ),
        tokens_marked(tokens_view(old(tokens)@), tokens_view(final(tokens)@)),
        grows_with(old(found_elements)@, final(found_elements)@, Category::AnimeTitle),
        final(found_elements)@.len() == old(found_elements)@.len() + 1,
{
    let n = tokens.len();
    let raw = chars_of(tokens[i].raw_token());
    let mut title: Vec<char> = Vec::new();
    title.push('「');
    extend(&mut title, &raw);
    title.push('」');
    assert(title@ =~= seq!['「'] + raw@ + seq!['」']);
    mark_all(tokens, i);
    let ghost ts1 = tokens_view(tokens@);
    let mut j = i + 1;
    while j < n
        invariant
            n == tokens@.len(),
            i < j <= n,
            ts1.len() == n,
            tokens_marked(tokens_view(old(tokens)@), tokens_view(tokens@)),
            found_elements@ == old(found_elements)@,
            mark_outside_after(ts1, i + 1) == mark_outside_after(tokens_view(tokens@), j as int),
        decreases n - j,
    {
        if !tokens[j].is_inside_delimiter() {
            let ghost before = tokens@;
            mark_all(tokens, j);
            proof {
                lemma_tokens_marked_trans(tokens_view(old(tokens)@), tokens_view(before), tokens_view(tokens@));
            }
        }
        j = j + 1;
    }
    push_title(found_elements, &title);
}

/// Marks the unclassified, non-empty subtokens of token `k`.
fn mark_unknown_texts_of(tokens: &mut Vec<Token>, k: usize)
    requires
        k < old(tokens)@.len(),
    ensures
        tokens_view(final(tokens)@) == tokens_view(old(tokens)@).update(k as int, mark_unknown_texts(old(tokens)@[k as int]@)),
        tokens_marked(tokens_view(old(tokens)@), tokens_view(final(tokens)@)),
{
    let ghost t0 = tokens@[k as int]@;
    let count = tokens[k].len();
    let mut q: usize = 0;
    proof {
        lemma_tokens_marked_refl(tokens_view(tokens@));
        assert(mark_unknown_texts_upto(t0, 0).subs =~= t0.subs);
        assert(tokens_view(tokens@) =~= tokens_view(old(tokens)@).update(k as int, mark_unknown_texts_upto(t0, 0)));
    }
    while q < count
        invariant
            tokens@.len() == old(tokens)@.len(),
            k < tokens@.len(),
            count == t0.subs.len(),
            0 <= q <= count,
            t0 == old(tokens)@[k as int]@,
            tokens_marked(tokens_view(old(tokens)@), tokens_view(tokens@)),
            tokens_view(tokens@) == tokens_view(old(tokens)@).update(k as int, mark_unknown_texts_upto(t0, q as int)),
        decreases count - q,
    {
        let ghost before = tokens@;
        assert(tokens_view(tokens@)[k as int] == tokens@[k as int]@);
        assert(tokens@[k as int]@.subs[q as int] == t0.subs[q as int]);
        if tokens[k].sub_is(q, SubTokenCategory::Unknow) && chars_of(tokens[k].sub_value(q)).len() != 0 {
            mark_sub(tokens, k, q);
            proof {
                lemma_tokens_marked_trans(tokens_view(old(tokens)@), tokens_view(before), tokens_view(tokens@));
            }
        }
        proof {
            assert(tokens_view(tokens@)[k as int].subs =~= mark_unknown_texts_upto(t0, q + 1).subs);
            assert(tokens_view(tokens@) =~= tokens_view(old(tokens)@).update(k as int, mark_unknown_texts_upto(t0, q + 1)));
        }
        q = q + 1;
    }
}

/// Whether token `k` is a lone number (see `lone_number`).
fn is_lone_number(t: &Token) -> (r: bool)
    ensures
        r == lone_number(t@),
{
    let count = t.len();
    let mut digit_unknowns: usize = 0;
    let mut only: usize = 0;
    let mut k: usize = 0;
    while k < count
        invariant
            count == t@.subs.len(),
            0 <= k <= count,
            digit_unknowns == unknown_text_count(t@.subs, k as int),
            digit_unknowns <= k,
            digit_unknowns > 0 ==> only < count && only == first_unknown_text(t@.subs, 0),
            digit_unknowns == 0 ==> first_unknown_text(t@.subs, 0) == first_unknown_text(t@.subs, k as int),
        decreases count - k,
    {
        if t.sub_is(k, SubTokenCategory::Unknow) && chars_of(t.sub_value(k)).len() != 0 {
            if digit_unknowns == 0 {
                only = k;
            }
            digit_unknowns = digit_unknowns + 1;
        }
        k = k + 1;
    }
    digit_unknowns == 1 && crate::text::all_ascii_digits(&chars_of(t.sub_value(only)))
}

/// The position of the first unclassified subtoken of `t` (or its length).
fn first_unknown_of(t: &Token) -> (r: usize)
    ensures
        r == first_unknown(t@.subs, 0),
{
    let count = t.len();
    let mut pos: usize = 0;
    while pos < count && !t.sub_is(pos, SubTokenCategory::Unknow)
        invariant
            count == t@.subs.len(),
            0 <= pos <= count,
            first_unknown(t@.subs, 0) == first_unknown(t@.subs, pos as int),
        decreases count - pos,
    {
        pos = pos + 1;
    }
    pos
}

/// Extracts the anime title, looking keywords up in `m`.
pub fn parse_anime_title_with(m: &Manager, tokens: &mut Vec<Token>, found_elements: &mut Elements, d: &[char])
    ensures
        (tokens_view(final(tokens)@), final(found_elements)@) == anime_title_spec(
            tokens_view(old(tokens)@),
            old(found_elements)@,
            d@,
        ),
        tokens_marked(tokens_view(old(tokens)@), tokens_view(final(tokens)@)),
        grows_with(old(found_elements)@, final(found_elements)@, Category::AnimeTitle),
        final(found_elements)@.len() <= old(found_elements)@.len() + 1,
{
    proof {
        use_type_invariant(m);
        lemma_tokens_marked_refl(tokens_view(tokens@));
        lemma_grows_refl(found_elements@);
    }
    let ghost tv = tokens_view(tokens@);
    let ghost e0 = found_elements@;
    let n = tokens.len();
    // A token in Japanese corner brackets is itself the complete title.
    let mut i: usize = 0;
    while i < n
        invariant
            n == tokens@.len(),
            0 <= i <= n,
            tokens@ == old(tokens)@,
            found_elements@ == old(found_elements)@,
            tv == tokens_view(old(tokens)@),
            first_corner(tv, 0) == first_corner(tv, i as int),
        decreases n - i,
    {
        if tokens[i].is_japanese_corner() && tokens[i].is_inside_delimiter() && tokens[i].contains_unknow() {
            corner_title(tokens, i, found_elements);
            return;
        }
        i = i + 1;
    }
    assert(first_corner(tv, 0) == n);

    let mut tmp_index: usize = 0;
    while tmp_index < n
        invariant
            n == tokens@.len(),
            0 <= tmp_index <= n,
            tokens_marked(tokens_view(old(tokens)@), tokens_view(tokens@)),
            found_elements@ == old(found_elements)@,
            m@ == crate::keyword::keyword_table(),
            tv == tokens_view(old(tokens)@),
            e0 == old(found_elements)@,
            first_corner(tv, 0) == n,
            title_scan(tv, e0, 0, d@) == title_scan(tokens_view(tokens@), e0, tmp_index as int, d@),
        decreases n - tmp_index,
    {
        if tokens[tmp_index].contains_unknow() && !tokens[tmp_index].is_inside_delimiter() {
            let raw = chars_of(tokens[tmp_index].raw_token());
            if !has_alphanumeric(&raw) {
                tmp_index = tmp_index + 1;
                continue;
            }
            // A single unclassified number is not a title.
            if is_lone_number(&tokens[tmp_index]) {
                let ghost before = tokens@;
                mark_unknown_texts_of(tokens, tmp_index);
                proof {
                    lemma_tokens_marked_trans(tokens_view(old(tokens)@), tokens_view(before), tokens_view(tokens@));
                }
                tmp_index = tmp_index + 1;
                continue;
            }
            if !found_elements.is_category_empty(Category::EpisodeNumber) {
                let pos = first_unknown_of(&tokens[tmp_index]);
                if pos < tokens[tmp_index].len() && pos > 0 {
                    tmp_index = tmp_index + 1;
                    continue;
                }
            }
            let ghost before = tokens@;
            let anime_title = find_anime_title(m, tokens, tmp_index, d, found_elements);
            proof {
                lemma_tokens_marked_trans(tokens_view(old(tokens)@), tokens_view(before), tokens_view(tokens@));
            }
            push_title(found_elements, &anime_title);
            return;
        }
        tmp_index = tmp_index + 1;
    }

    // Fall back on the first two bracketed tokens with unclassified subtokens.
    let ghost ts = tokens_view(tokens@);
    let mut first_idx: Option<usize> = None;
    let mut second_idx: Option<usize> = None;
    let mut i: usize = 0;
    while i < n
        invariant_except_break
            second_idx is None,
        invariant
            n == tokens@.len(),
            0 <= i <= n,
            ts == tokens_view(tokens@),
            first_idx is None ==> next_bracketed(ts, 0) == next_bracketed(ts, i as int),
            first_idx matches Some(f) ==> f < n && f < i && f == next_bracketed(ts, 0) && has_unknown(tokens@[f as int]@),
            (first_idx is Some && second_idx is None) ==> next_bracketed(ts, first_idx.unwrap() + 1) == next_bracketed(ts, i as int),
            second_idx matches Some(s) ==> first_idx is Some && s < n && s == next_bracketed(ts, first_idx.unwrap() + 1)
                && has_unknown(tokens@[s as int]@),
        ensures
            first_idx is None ==> next_bracketed(ts, 0) == n,
            first_idx matches Some(f) ==> f < n && f == next_bracketed(ts, 0) && has_unknown(tokens@[f as int]@),
            (first_idx is Some && second_idx is None) ==> next_bracketed(ts, first_idx.unwrap() + 1) == n,
            second_idx matches Some(s) ==> first_idx is Some && s < n && s == next_bracketed(ts, first_idx.unwrap() + 1)
                && has_unknown(tokens@[s as int]@),
        decreases n - i,
    {
        if tokens[i].contains_unknow() && tokens[i].is_inside_delimiter() {
            if first_idx.is_none() {
                first_idx = Some(i);
            } else if second_idx.is_none() {
                second_idx = Some(i);
                break;
            }
        }
        i = i + 1;
    }
    if let (Some(f), Some(s)) = (first_idx, second_idx) {
        let first_count = count_unknown(&tokens[f]);
        let second_count = count_unknown(&tokens[s]);
        let idx = if first_count > second_count { f } else { s };
        let ghost before = tokens@;
        let anime_title = find_anime_title(m, tokens, idx, d, found_elements);
        proof {
            lemma_tokens_marked_trans(tokens_view(old(tokens)@), tokens_view(before), tokens_view(tokens@));
        }
        push_title(found_elements, &anime_title);
    }
}

/// Number of unclassified subtokens of `t`.
fn count_unknown(t: &Token) -> (r: usize)
    ensures
        r == unknown_count(t@.subs, t@.subs.len() as int),
{
    let n = t.len();
    let mut c: usize = 0;
    let mut i: usize = 0;
    while i < n
        invariant
            n == t@.subs.len(),
            0 <= i <= n,
            c == unknown_count(t@.subs, i as int),
            c <= i,
        decreases n - i,
    {
        if t.sub_is(i, SubTokenCategory::Unknow) {
            c = c + 1;
        }
        i = i + 1;
    }
    c
}

/// Whether no character of `s` is alphanumeric.
fn no_alphanumeric(s: &Vec<char>) -> (r: bool)
    ensures
        r == !any_alphanumeric(s@),
{
    !has_alphanumeric(s)
}

/// Whether `s` is non-empty and starts with an uppercase character.
fn starts_upper(s: &Vec<char>) -> (r: bool)
    ensures
        r == upper_start(s@),
{
    s.len() > 0 && crate::text::is_uppercase(s[0])
}

/// One step of the title in its first token (see `title_step`); says whether the title ends.
fn first_token_step(
    m: &Manager,
    tokens: &mut Vec<Token>,
    ti: usize,
    k: usize,
    anime_title: &mut Vec<char>,
    raw_token: &Vec<char>,
    d: &[char],
    found_elements: &Elements,
) -> (stop: bool)
    requires
        m@ == crate::keyword::keyword_table(),
        ti < old(tokens)@.len(),
        k < old(tokens)@[ti as int]@.subs.len(),
        raw_token@ == old(tokens)@[ti as int]@.raw,
    ensures
        ({
            let r = title_step(old(tokens)@[ti as int]@, old(anime_title)@, k as int, found_elements@, d@);
            &&& tokens_view(final(tokens)@) == tokens_view(old(tokens)@).update(ti as int, r.0)
            &&& final(anime_title)@ == r.1
            &&& stop == r.2
        }),
        tokens_marked(tokens_view(old(tokens)@), tokens_view(final(tokens)@)),
{
    proof {
        reveal(title_step);
        lemma_tokens_marked_refl(tokens_view(tokens@));
        assert(tokens_view(tokens@) =~= tokens_view(tokens@).update(ti as int, tokens@[ti as int]@));
    }
    let ghost t = tokens@[ti as int]@;
    let len_s = tokens[ti].len();
    let has_dot = char_in(d, '.');
    let has_dash = char_in(d, '-');
    if tokens[ti].sub_is(k, SubTokenCategory::Found) {
        return true;
    }
    let current_val = chars_of(tokens[ti].sub_value(k));
    let next_is_found = len_s - k > 1 && tokens[ti].sub_is(k + 1, SubTokenCategory::Found);
    if next_is_found && no_alphanumeric(&current_val) {
        mark_sub(tokens, ti, k);
        return false;
    }
    let trimmed_title = crate::text::trim_start_whitespace(anime_title);
    let last_space_word = crate::text::last_segment_of(&trimmed_title, ' ');
    if has_dot && anime_title.len() > 0 && utf8_len_capped(&current_val, 2) <= 2 {
        let prev_last_seg = crate::text::last_segment_of(&last_space_word, '.');
        if utf8_len_capped(&prev_last_seg, 2) <= 2 && prev_last_seg.len() > 0 {
            let dot_form = crate::text::join3(&last_space_word, '.', &current_val);
            if contains_seq(raw_token, &dot_form) {
                anime_title.push('.');
                extend(anime_title, &current_val);
                mark_sub(tokens, ti, k);
                return false;
            }
        }
    }
    if has_dash && anime_title.len() > 0 {
        let last_word = last_space_word;
        if last_word.len() > 0 {
            let both_single_digits = utf8_len_capped(&last_word, 1) == 1 && utf8_len_capped(&current_val, 1) == 1
                && crate::text::all_ascii_digits(&last_word) && crate::text::all_ascii_digits(&current_val);
            let both_alpha_words = utf8_len_capped(&last_word, 2) >= 2 && utf8_len_capped(&current_val, 2) >= 2
                && only_alphabetic(&last_word) && only_alphabetic(&current_val) && starts_upper(&last_word)
                && starts_upper(&current_val) && next_is_found;
            if both_single_digits || both_alpha_words {
                let dash_form = crate::text::join3(&last_word, '-', &current_val);
                if contains_seq(raw_token, &dash_form) {
                    anime_title.push('-');
                    extend(anime_title, &current_val);
                    mark_sub(tokens, ti, k);
                    return false;
                }
            }
        }
    }
    // An alphabetic prefix with a digit suffix, like "EX01", "OVA3.5", "ED2" or "OP4a".
    let cl = current_val.len();
    let mut alpha_len: usize = 0;
    while alpha_len < cl && crate::text::ascii_alpha(current_val[alpha_len])
        invariant
            cl == current_val@.len(),
            0 <= alpha_len <= cl,
            forall|j: int| 0 <= j < alpha_len ==> is_ascii_alpha(#[trigger] current_val@[j]),
        decreases cl - alpha_len,
    {
        alpha_len = alpha_len + 1;
    }
    proof {
        lemma_alpha_prefix_unique(current_val@, alpha_len as int);
    }
    if cl > 0 && alpha_len > 0 && alpha_len < cl {
        let alpha_prefix = slice_of(&current_val, 0, alpha_len);
        let digit_suffix = slice_of(&current_val, alpha_len, cl);
        let prefix_text = string_of(&alpha_prefix);
        if let Some(kw) = m.find(prefix_text.as_str()) {
            let cat = kw.get_category();
            if (cat == Category::EpisodePrefix && !kw.is_valid())
                || (cat == Category::AnimeType && kw.is_valid() && kw.is_searchable()) {
                if is_episode_suffix(&digit_suffix) && !found_elements.is_category_empty(Category::EpisodeNumber) {
                    let ep_matches = match found_elements.find(Category::EpisodeNumber) {
                        Some(ep) => {
                            let ev = chars_of(ep.value.as_str());
                            crate::text::seq_eq(&ev, &digit_suffix)
                                || crate::text::seq_eq(&crate::text::first_segment_of(&ev, '.'), &digit_suffix)
                        },
                        None => false,
                    };
                    if ep_matches {
                        anime_title.push(' ');
                        extend(anime_title, &alpha_prefix);
                        mark_sub(tokens, ti, k);
                        return false;
                    }
                }
            } else {
                mark_sub(tokens, ti, k);
                return true;
            }
        }
    }
    anime_title.push(' ');
    extend(anime_title, &current_val);
    mark_sub(tokens, ti, k);
    false
}

/// The title continued into token `j` (see `follow_token`); says whether the title ends.
fn follow_token_step(tokens: &mut Vec<Token>, j: usize, anime_title: &mut Vec<char>, d: &[char]) -> (stop: bool)
    requires
        0 < j < old(tokens)@.len(),
    ensures
        ({
            let r = follow_token(tokens_view(old(tokens)@), old(anime_title)@, j as int, d@);
            &&& tokens_view(final(tokens)@) == r.0
            &&& final(anime_title)@ == r.1
            &&& stop == r.2
        }),
        tokens_marked(tokens_view(old(tokens)@), tokens_view(final(tokens)@)),
{
    proof {
        reveal(follow_token);
        lemma_tokens_marked_refl(tokens_view(tokens@));
    }
    let ghost ts = tokens_view(tokens@);
    let ghost t = ts[j as int];
    let n = tokens.len();
    let has_dash = char_in(d, '-');
    let is_weak = tokens[j].is_weak();
    let is_inside = tokens[j].is_inside_delimiter();
    let is_embedded_bracket = is_inside && !is_weak && n - j > 1 && !tokens[j + 1].is_inside_delimiter()
        && tokens[j + 1].contains_unknow();
    if !tokens[j].contains_unknow() || (is_inside && !is_weak && !is_embedded_bracket) {
        return true;
    }
    let prev_raw = chars_of(tokens[j - 1].raw_token());
    let last_char: char = if prev_raw.len() > 0 { prev_raw[prev_raw.len() - 1] } else { ' ' };
    let cur_raw = chars_of(tokens[j].raw_token());
    let spaces = vec![' '];
    assert(spaces@ =~= seq![' ']);
    let start = crate::text::trim_start_index(&cur_raw, spaces.as_slice());
    let stripped = slice_of(&cur_raw, start, cur_raw.len());
    let dash_space = vec!['-', ' '];
    assert(dash_space@ =~= seq!['-', ' ']);
    let cur_token_starts_with_dash = has_dash && crate::text::starts_with(&stripped, &dash_space);
    let count = tokens[j].len();
    assert(count > 0) by {
        let w = choose|w: int| 0 <= w < t.subs.len() && (#[trigger] t.subs[w]).1 == SubTokenCategory::Unknow;
    }
    if tokens[j].sub_is(0, SubTokenCategory::Found) {
        return true;
    }
    let first = chars_of(tokens[j].sub_value(0));
    if is_weak {
        if char_in(d, last_char) {
            anime_title.push(' ');
        }
        anime_title.push('(');
        extend(anime_title, &first);
    } else if is_embedded_bracket {
        if char_in(d, last_char) {
            anime_title.push(' ');
        }
        anime_title.push('[');
        extend(anime_title, &first);
    } else if cur_token_starts_with_dash {
        anime_title.push(' ');
        anime_title.push('-');
        anime_title.push(' ');
        extend(anime_title, &first);
    } else {
        anime_title.push(' ');
        extend(anime_title, &first);
    }
    let ghost opened = anime_title@;
    mark_sub(tokens, j, 0);
    let ghost whole = follow_token(ts, old(anime_title)@, j as int, d@);
    assert(whole == close_follow(ts, j as int, rest_scan(mark_token(t, 0), opened, 1, count as int), is_weak, is_embedded_bracket));
    let mut k: usize = 1;
    while k < count
        invariant
            n == tokens@.len(),
            0 < j < n,
            count == t.subs.len(),
            1 <= k <= count,
            ts == tokens_view(old(tokens)@),
            t == ts[j as int],
            tokens_marked(tokens_view(old(tokens)@), tokens_view(tokens@)),
            rest_scan(mark_token(t, 0), opened, 1, count as int) == rest_scan(tokens@[j as int]@, anime_title@, k as int, count as int),
            tokens_view(tokens@) == ts.update(j as int, tokens@[j as int]@),
            tokens@[j as int]@.subs.len() == count,
            forall|q: int| k <= q < count ==> tokens@[j as int]@.subs[q] == t.subs[q],
            whole == follow_token(ts, old(anime_title)@, j as int, d@),
            whole == close_follow(ts, j as int, rest_scan(mark_token(t, 0), opened, 1, count as int), is_weak, is_embedded_bracket),
        decreases count - k,
    {
        if tokens[j].sub_is(k, SubTokenCategory::Found) {
            return true;
        }
        anime_title.push(' ');
        let v = chars_of(tokens[j].sub_value(k));
        extend(anime_title, &v);
        let ghost before = tokens@;
        mark_sub(tokens, j, k);
        proof {
            lemma_tokens_marked_trans(tokens_view(old(tokens)@), tokens_view(before), tokens_view(tokens@));
            assert(tokens_view(tokens@) =~= ts.update(j as int, tokens@[j as int]@));
        }
        k = k + 1;
    }
    if is_weak {
        anime_title.push(')');
    } else if is_embedded_bracket {
        anime_title.push(']');
    }
    false
}

/// Builds the anime title starting at token `starting_index`, marking what it takes as found.
fn find_anime_title(m: &Manager, tokens: &mut Vec<Token>, starting_index: usize, d: &[char], found_elements: &Elements) -> (r: Vec<char>)
    requires
        m@ == crate::keyword::keyword_table(),
        starting_index < old(tokens)@.len(),
        has_unknown(old(tokens)@[starting_index as int]@),
    ensures
        (tokens_view(final(tokens)@), r@) == find_title_spec(tokens_view(old(tokens)@), starting_index as int, found_elements@, d@),
        tokens_marked(tokens_view(old(tokens)@), tokens_view(final(tokens)@)),
{
    proof {
        lemma_tokens_marked_refl(tokens_view(tokens@));
    }
    let ghost ts0 = tokens_view(tokens@);
    let ghost t0 = ts0[starting_index as int];
    let n = tokens.len();
    let ti = starting_index;
    let mut anime_title: Vec<char> = Vec::new();
    let raw_token = chars_of(tokens[ti].raw_token());
    let len_s = tokens[ti].len();

    let mut unknow_start: usize = 0;
    while tokens[ti].sub_is(unknow_start, SubTokenCategory::Found)
        invariant
            len_s == tokens@[ti as int]@.subs.len(),
            ti < tokens@.len(),
            tokens@ == old(tokens)@,
            t0 == tokens@[ti as int]@,
            0 <= unknow_start < len_s,
            has_unknown(tokens@[ti as int]@),
            forall|j: int| 0 <= j < unknow_start ==> (#[trigger] tokens@[ti as int]@.subs[j]).1 == SubTokenCategory::Found,
            found_run_end(t0.subs, 0) == found_run_end(t0.subs, unknow_start as int),
        decreases len_s - unknow_start,
    {
        unknow_start = unknow_start + 1;
        assert(unknow_start < len_s) by {
            let t = tokens@[ti as int]@;
            let w = choose|w: int| 0 <= w < t.subs.len() && (#[trigger] t.subs[w]).1 == SubTokenCategory::Unknow;
            assert(w >= unknow_start);
        }
    }
    assert(found_run_end(t0.subs, unknow_start as int) == unknow_start);

    let mut tmp_index = unknow_start;
    while tmp_index < len_s
        invariant
            n == tokens@.len(),
            ti < n,
            len_s == tokens@[ti as int]@.subs.len(),
            len_s == t0.subs.len(),
            0 <= tmp_index <= len_s,
            raw_token@ == t0.raw,
            tokens_marked(tokens_view(old(tokens)@), tokens_view(tokens@)),
            m@ == crate::keyword::keyword_table(),
            ts0 == tokens_view(old(tokens)@),
            t0 == ts0[ti as int],
            ti == starting_index,
            tokens_view(tokens@) == ts0.update(ti as int, tokens@[ti as int]@),
            first_token_scan(t0, Seq::empty(), found_run_end(t0.subs, 0), len_s as int, found_elements@, d@)
                == first_token_scan(tokens@[ti as int]@, anime_title@, tmp_index as int, len_s as int, found_elements@, d@),
        decreases len_s - tmp_index,
    {
        let ghost before = tokens@;
        let ghost t_before = tokens@[ti as int]@;
        let ghost title_before = anime_title@;
        let stop = first_token_step(m, tokens, ti, tmp_index, &mut anime_title, &raw_token, d, found_elements);
        proof {
            lemma_tokens_marked_trans(tokens_view(old(tokens)@), tokens_view(before), tokens_view(tokens@));
            assert(tokens_view(tokens@)[ti as int] == tokens@[ti as int]@);
            assert(tokens_view(tokens@) =~= ts0.update(ti as int, tokens@[ti as int]@));
        }
        if stop {
            proof {
                let r = title_step(t_before, title_before, tmp_index as int, found_elements@, d@);
                assert(first_token_scan(t_before, title_before, tmp_index as int, len_s as int, found_elements@, d@) == r);
                assert(tokens@[ti as int]@ == r.0);
            }
            return trim_chars(&anime_title, d);
        }
        tmp_index = tmp_index + 1;
    }

    let ghost ts1 = tokens_view(tokens@);
    let ghost title1 = anime_title@;
    let ghost whole = find_title_spec(ts0, ti as int, found_elements@, d@);
    assert(tokens@[ti as int]@ == tokens_view(tokens@)[ti as int]);
    assert(whole == (follow_scan(ts1, title1, ti + 1, n as int, d@).0, trimmed(follow_scan(ts1, title1, ti + 1, n as int, d@).1, d@)));
    let mut token_index = ti + 1;
    while token_index < n
        invariant
            n == tokens@.len(),
            ti < token_index <= n,
            tokens_marked(tokens_view(old(tokens)@), tokens_view(tokens@)),
            ts0 == tokens_view(old(tokens)@),
            ti == starting_index,
            whole == find_title_spec(ts0, ti as int, found_elements@, d@),
            whole == (follow_scan(ts1, title1, ti + 1, n as int, d@).0, trimmed(follow_scan(ts1, title1, ti + 1, n as int, d@).1, d@)),
            follow_scan(ts1, title1, ti + 1, n as int, d@) == follow_scan(tokens_view(tokens@), anime_title@, token_index as int, n as int, d@),
        decreases n - token_index,
    {
        let ghost before = tokens@;
        let ghost title_before = anime_title@;
        let stop = follow_token_step(tokens, token_index, &mut anime_title, d);
        proof {
            lemma_tokens_marked_trans(tokens_view(old(tokens)@), tokens_view(before), tokens_view(tokens@));
        }
        if stop {
            proof {
                let r = follow_token(tokens_view(before), title_before, token_index as int, d@);
                assert(follow_scan(tokens_view(before), title_before, token_index as int, n as int, d@) == (r.0, r.1));
            }
            return trim_chars(&anime_title, d);
        }
        token_index = token_index + 1;
    }
    trim_chars(&anime_title, d)
}

/// Whether `s` is a clean episode suffix: non-empty, with a digit, and only digits and dots.
fn is_episode_suffix(s: &Vec<char>) -> (r: bool)
    ensures
        r == episode_suffix(s@),
{
    let n = s.len();
    if n == 0 {
        return false;
    }
    let mut any_digit = false;
    let mut i: usize = 0;
    while i < n
        invariant
            n == s@.len(),
            0 <= i <= n,
            any_digit == exists|j: int| 0 <= j < i && is_ascii_digit(#[trigger] s@[j]),
            forall|j: int| 0 <= j < i ==> is_ascii_digit(#[trigger] s@[j]) || s@[j] == '.',
        decreases n - i,
    {
        let c = s[i];
        if crate::text::ascii_digit(c) {
            any_digit = true;
        } else if c != '.' {
            return false;
        }
        i = i + 1;
    }
    any_digit
}

} // verus!
