//! Parsing passes that progressively extract elements from the token list.
use vstd::prelude::*;

use crate::elements::{
    Category, Element, ElementView, Elements, grows, has_category, lemma_grows_push, lemma_grows_refl,
    lemma_grows_trans, lemma_of_category_push, of_category,
};
use crate::keyword::{keyword_of, keyword_table, Manager};
use crate::text::{
    chars_of, concat, contains_seq, is_ascii_digit, join3, lower_of, occurs_in, slice_of, str_eq, string_of, to_lower,
    to_upper, upper_of, utf8_len, utf8_len_of,
};
use crate::token::main_token::{
    has_unknown, lemma_token_marked_refl, lemma_token_marked_trans, lemma_tokens_marked_refl, lemma_tokens_marked_trans,
    mark_token, token_marked, tokens_marked, tokens_view, Token, TokenView,
};
use crate::token::subtoken::SubTokenCategory;
use crate::utils::remove_all;

use self::episode_number::{parse_or, parse_or_else};
use self::number::{
    anime_year_spec, crc32_spec, digit_spec, is_anime_year, is_crc32, is_digit, is_resolution, ordinal_value,
    ordinals_to_nb, resolution_spec, unsigned_part,
};
use self::string::{multiple_keyword_spec, parse_multiple_keyword};

pub mod episode;
pub mod episode_number;
pub mod extensions;
pub mod number;
pub mod string;

verus! {

/// The state the keyword pass works on within one token: the token and the elements.
pub type ScanState = (TokenView, Seq<ElementView>);

/// Classifies subtoken `i` of `token` as found, keeping track of the token the pass started from.
fn mark(token: &mut Token, i: usize, Ghost(orig): Ghost<TokenView>)
    requires
        token_marked(orig, old(token)@),
        i < orig.subs.len(),
    ensures
        token_marked(orig, final(token)@),
        final(token)@ == mark_token(old(token)@, i as int),
{
    let ghost before = token@;
    token.mark_found(i);
    proof {
        lemma_token_marked_trans(orig, before, token@);
    }
}

/// Appends an element, keeping track of the collection the pass started from.
fn record(e: &mut Elements, c: Category, v: &str, Ghost(orig): Ghost<Seq<ElementView>>)
    requires
        grows(orig, old(e)@),
    ensures
        grows(orig, final(e)@),
        final(e)@ == old(e)@.push((c, v@)),
{
    let ghost before = e@;
    e.push(c, v);
    proof {
        lemma_grows_push(orig, before, (c, v@));
    }
}

/// Some unclassified subtoken of `t` other than `index` is no keyword and, when `strict`, no
/// resolution, number or checksum either.
pub open spec fn other_unknown_spec(t: TokenView, index: int, strict: bool) -> bool {
    exists|i: int|
        0 <= i < t.subs.len() && i != index && #[trigger] t.subs[i].1 == SubTokenCategory::Unknow
            && keyword_of(t.subs[i].0) is None && (strict ==> !resolution_spec(t.subs[i].0)
            && !digit_spec(t.subs[i].0) && !crc32_spec(t.subs[i].0))
}

/// Some subtoken of `t` other than `index` is unclassified.
pub open spec fn any_other_unknown_spec(t: TokenView, index: int) -> bool {
    exists|i: int| 0 <= i < t.subs.len() && i != index && #[trigger] t.subs[i].1 == SubTokenCategory::Unknow
}

/// Some subtoken of `t` before `index` is found.
pub open spec fn found_before_spec(t: TokenView, index: int) -> bool {
    exists|i: int| 0 <= i < index && #[trigger] t.subs[i].1 == SubTokenCategory::Found
}

/// A language equal to `v` (compared in upper case) is among the elements.
pub open spec fn language_known_spec(e: Seq<ElementView>, v: Seq<char>) -> bool {
    let langs = of_category(e, Category::Language);
    exists|j: int| 0 <= j < langs.len() && upper_of(#[trigger] langs[j].1) == upper_of(v)
}

/// Whether some unclassified subtoken other than `index` is neither a keyword nor (when
/// `strict`) a resolution, a number or a checksum.
fn other_unknown(token: &Token, index: usize, manager: &Manager, strict: bool) -> (r: bool)
    requires
        manager@ == keyword_table(),
    ensures
        r == other_unknown_spec(token@, index as int, strict),
{
    let n = token.len();
    let mut i: usize = 0;
    while i < n
        invariant
            n == token@.subs.len(),
            0 <= i <= n,
            manager@ == keyword_table(),
            forall|j: int|
                0 <= j < i ==> !(j != index && #[trigger] token@.subs[j].1 == SubTokenCategory::Unknow
                    && keyword_of(token@.subs[j].0) is None && (strict ==> !resolution_spec(token@.subs[j].0)
                    && !digit_spec(token@.subs[j].0) && !crc32_spec(token@.subs[j].0))),
        decreases n - i,
    {
        if i != index && token.sub_is(i, SubTokenCategory::Unknow) {
            let v = token.sub_value(i);
            let not_kw = manager.find(v).is_none();
            if strict {
                if !is_resolution(v) && !is_digit(v) && !is_crc32(v) && not_kw {
                    return true;
                }
            } else if not_kw {
                return true;
            }
        }
        i = i + 1;
    }
    false
}

/// Whether some subtoken other than `index` is unclassified.
fn any_other_unknown(token: &Token, index: usize) -> (r: bool)
    ensures
        r == any_other_unknown_spec(token@, index as int),
{
    let n = token.len();
    let mut i: usize = 0;
    while i < n
        invariant
            n == token@.subs.len(),
            0 <= i <= n,
            forall|j: int| 0 <= j < i ==> !(j != index && #[trigger] token@.subs[j].1 == SubTokenCategory::Unknow),
        decreases n - i,
    {
        if i != index && token.sub_is(i, SubTokenCategory::Unknow) {
            return true;
        }
        i = i + 1;
    }
    false
}

/// Whether some subtoken before `index` is found.
fn found_before(token: &Token, index: usize) -> (r: bool)
    requires
        index <= token@.subs.len(),
    ensures
        r == found_before_spec(token@, index as int),
{
    let mut i: usize = 0;
    while i < index
        invariant
            index <= token@.subs.len(),
            0 <= i <= index,
            forall|j: int| 0 <= j < i ==> #[trigger] token@.subs[j].1 != SubTokenCategory::Found,
        decreases index - i,
    {
        if token.sub_is(i, SubTokenCategory::Found) {
            return true;
        }
        i = i + 1;
    }
    false
}

/// Whether a language equal to `v` (compared in upper case) was already found.
fn language_known(elements: &Elements, v: &str) -> (r: bool)
    ensures
        r == language_known_spec(elements@, v@),
{
    let upper_v = to_upper(v);
    let ghost langs = of_category(elements@, Category::Language);
    match elements.find_all(Category::Language) {
        Some(languages) => {
            let n = languages.len();
            let mut i: usize = 0;
            while i < n
                invariant
                    n == languages@.len(),
                    0 <= i <= n,
                    languages@.map_values(|x: Element| x@) == langs,
                    langs == of_category(elements@, Category::Language),
                    upper_v@ == upper_of(v@),
                    forall|j: int| 0 <= j < i ==> upper_of(#[trigger] langs[j].1) != upper_of(v@),
                decreases n - i,
            {
                assert(langs[i as int] == languages@[i as int]@);
                let u = to_upper(languages[i].value.as_str());
                if str_eq(u.as_str(), upper_v.as_str()) {
                    assert(upper_of(langs[i as int].1) == upper_of(v@));
                    return true;
                }
                i = i + 1;
            }
            false
        },
        None => false,
    }
}

/// Where the leading ASCII digits of `s` end: `k` digits, then a non-digit or the end.
pub open spec fn is_digit_prefix_end(s: Seq<char>, k: int) -> bool {
    &&& 0 <= k <= s.len()
    &&& forall|j: int| 0 <= j < k ==> is_ascii_digit(#[trigger] s[j])
    &&& (k < s.len() ==> !is_ascii_digit(s[k]))
}

/// The number of leading ASCII digits of `s`.
pub open spec fn digit_prefix_len(s: Seq<char>) -> int {
    choose|k: int| is_digit_prefix_end(s, k)
}

/// There is one end of the leading digits.
proof fn lemma_digit_prefix_unique(s: Seq<char>, k: int)
    requires
        is_digit_prefix_end(s, k),
    ensures
        digit_prefix_len(s) == k,
{
    let c = digit_prefix_len(s);
    if c < k {
        assert(is_ascii_digit(s[c]));
    }
    if k < c {
        assert(is_ascii_digit(s[k]));
    }
}

/// Two numbers in a row: the "5.1" audio term, a joined keyword, or (inside brackets) a decimal
/// number written in the raw token after a number or a found subtoken.
pub open spec fn number_pair_spec(t: TokenView, e: Seq<ElementView>, index: int) -> ScanState {
    let left = t.subs[index].0;
    let right = t.subs[index + 1].0;
    let both = mark_token(mark_token(t, index), index + 1);
    if left == "5"@ && right == "1"@ {
        (both, e.push((Category::AudioTerm, "5.1"@)))
    } else {
        match multiple_keyword_spec(e, left, right) {
            Some(x) => (both, e.push(x)),
            None => if t.inside && digit_spec(right) && occurs_in(t.raw, left.push('.') + right) && (index == 0
                || t.subs[index - 1].1 == SubTokenCategory::Found || digit_spec(t.subs[index - 1].0)) {
                (both, e)
            } else {
                (t, e)
            },
        }
    }
}

/// The audio terms "E-AC-3" and "DTS-ES" written across subtokens from `index`.
pub open spec fn audio_term_spec(t: TokenView, e: Seq<ElementView>, index: int) -> Option<ScanState> {
    let n = t.subs.len();
    let tested = t.subs[index].0;
    let upper = upper_of(tested);
    let eac = tested.push('-') + t.subs[index + 1].0 + seq!['-'] + t.subs[index + 2].0;
    let dts = tested.push('-') + t.subs[index + 1].0;
    if upper == "E"@ && index + 2 < n && upper_of(eac) == "E-AC-3"@ {
        Some((mark_token(mark_token(mark_token(t, index), index + 1), index + 2), e.push((Category::AudioTerm, eac))))
    } else if upper == "DTS"@ && index + 1 < n && upper_of(dts) == "DTS-ES"@ {
        Some((mark_token(mark_token(t, index), index + 1), e.push((Category::AudioTerm, dts))))
    } else {
        None
    }
}

/// A season prefix: recorded, with the season number that precedes it (as an ordinal) or follows it.
pub open spec fn season_prefix_spec(t: TokenView, e: Seq<ElementView>, index: int) -> ScanState {
    let n = t.subs.len();
    let e1 = e.push((Category::AnimeSeasonPrefix, t.subs[index].0));
    let t1 = mark_token(t, index);
    let season = ordinal_value(lower_of(t.subs[index - 1].0));
    let next = t.subs[index + 1].0;
    if index >= 1 && season.len() != 0 {
        (mark_token(t1, index - 1), e1.push((Category::AnimeSeason, season)))
    } else if index + 1 < n && digit_spec(next) {
        (mark_token(t1, index + 1), e1.push((Category::AnimeSeason, next)))
    } else {
        (t1, e1)
    }
}

/// An episode prefix followed by a number (and a larger second one): both recorded, with the
/// prefix itself when the keyword is valid.
pub open spec fn episode_prefix_spec(t: TokenView, e: Seq<ElementView>, index: int, valid: bool) -> ScanState {
    let n = t.subs.len();
    let tested = t.subs[index].0;
    let next = t.subs[index + 1].0;
    let after = t.subs[index + 2].0;
    if index + 1 < n && digit_spec(next) {
        let t1 = mark_token(t, index + 1);
        let e1 = e.push((Category::EpisodeNumber, next));
        let range = index + 2 < n && digit_spec(after) && parse_or(next, 0) < parse_or(after, 0);
        let t2 = if range { mark_token(t1, index + 2) } else { t1 };
        let e2 = if range { e1.push((Category::EpisodeNumber, after)) } else { e1 };
        (mark_token(t2, index), if valid { e2.push((Category::EpisodePrefix, tested)) } else { e2 })
    } else if valid {
        (mark_token(t, index), e.push((Category::EpisodePrefix, tested)))
    } else {
        (t, e)
    }
}

/// A volume prefix followed by a volume number (possibly with a release version glued to it);
/// without one, a non-identifying prefix counts as an anime type.
pub open spec fn volume_prefix_spec(t: TokenView, e: Seq<ElementView>, index: int, identifiable: bool) -> ScanState {
    let n = t.subs.len();
    let tested = t.subs[index].0;
    let next = t.subs[index + 1].0;
    let lead = digit_prefix_len(next);
    let version = next.subrange(lead + 1, next.len() as int);
    let e0 = if !identifiable { e.push((Category::VolumePrefix, tested)) } else { e };
    let both = mark_token(mark_token(t, index + 1), index);
    if index + 1 < n && digit_spec(next) {
        (both, e0.push((Category::VolumeNumber, next)))
    } else if index + 1 < n && lead > 0 && lead < next.len() && (next[lead] == 'v' || next[lead] == 'V') && digit_spec(
        version,
    ) {
        (both, e0.push((Category::VolumeNumber, next.subrange(0, lead))).push((Category::ReleaseVersion, version)))
    } else if !identifiable {
        (t, e.push((Category::AnimeType, tested)))
    } else {
        (mark_token(t, index), e.push((Category::VolumePrefix, tested)))
    }
}

/// What a subtoken that the keyword table knows does; `None` when the caller goes on to try
/// joined keywords.
pub open spec fn keyword_spec(t: TokenView, e: Seq<ElementView>, index: int) -> Option<ScanState> {
    let tested = t.subs[index].0;
    match keyword_of(tested) {
        None => None,
        Some(kw) => {
            let c = kw.category;
            if !c.searchable() || (!c.multi_valued() && has_category(e, c)) || e.contains((c, tested)) || (c
                == Category::Language && !kw.identifiable && !t.inside) {
                Some((t, e))
            } else if audio_term_spec(t, e, index) is Some {
                audio_term_spec(t, e, index)
            } else if c == Category::AnimeSeasonPrefix {
                Some(season_prefix_spec(t, e, index))
            } else if c == Category::EpisodePrefix {
                Some(episode_prefix_spec(t, e, index, kw.valid))
            } else if c == Category::ReleaseVersion {
                Some((mark_token(t, index), e.push((Category::ReleaseVersion, remove_all(lower_of(tested), seq!['v'])))))
            } else if c == Category::VolumePrefix {
                Some(volume_prefix_spec(t, e, index, kw.identifiable))
            } else if c == Category::AnimeType {
                if t.inside && other_unknown_spec(t, index, true) {
                    Some((t, e))
                } else {
                    Some((if !kw.searchable { mark_token(t, index) } else { t }, e.push((c, tested))))
                }
            } else if c == Category::Language {
                if (t.inside && t.paren && other_unknown_spec(t, index, false)) || language_known_spec(e, tested) {
                    Some((t, e))
                } else {
                    Some((mark_token(t, index), e.push((c, tested))))
                }
            } else if c == Category::ReleaseGroup && t.inside && any_other_unknown_spec(t, index) {
                Some((t, e))
            } else if c == Category::Subtitles && !t.inside && !has_category(e, Category::Language) {
                Some((mark_token(t, index), e))
            } else if c == Category::Unknown {
                None
            } else if c == Category::ReleaseInformation && !kw.identifiable && found_before_spec(t, index) {
                Some((mark_token(t, index), e))
            } else if c == Category::ReleaseInformation && t.inside && !t.paren && index > 0 && t.subs[0].1
                == SubTokenCategory::Unknow {
                Some((t, e))
            } else {
                Some((mark_token(t, index), e.push((c, tested))))
            }
        },
    }
}

/// The keyword pass at subtoken `index` of token `t`: numbers (see `number_pair_spec`), a
/// checksum (the first one only), a resolution, a keyword (see `keyword_spec`), or a keyword
/// written across this subtoken and the next.
pub open spec fn subtoken_spec(t: TokenView, e: Seq<ElementView>, index: int) -> ScanState {
    let n = t.subs.len();
    let tested = t.subs[index].0;
    let both = mark_token(mark_token(t, index), index + 1);
    if tested.len() == 0 || t.subs[index].1 == SubTokenCategory::Found {
        (t, e)
    } else if digit_spec(tested) && utf8_len(tested) != 8 {
        if index + 1 < n {
            number_pair_spec(t, e, index)
        } else {
            (t, e)
        }
    } else if crc32_spec(tested) && !has_category(e, Category::FileChecksum) {
        (mark_token(t, index), e.push((Category::FileChecksum, tested)))
    } else if resolution_spec(tested) {
        (mark_token(t, index), e.push((Category::VideoResolution, tested)))
    } else if keyword_spec(t, e, index) is Some {
        keyword_spec(t, e, index).unwrap()
    } else if index + 1 < n {
        match multiple_keyword_spec(e, tested, t.subs[index + 1].0) {
            Some(x) => (both, e.push(x)),
            None => (t, e),
        }
    } else {
        (t, e)
    }
}

/// A category that a collection holds already is never given by a joined keyword.
proof fn lemma_joined_not_held(e: Seq<ElementView>, left: Seq<char>, right: Seq<char>, c: Category)
    requires
        has_category(e, c),
        !c.multi_valued(),
    ensures
        multiple_keyword_spec(e, left, right) matches Some(x) ==> x.0 != c,
{
}

/// Appending an element of another category keeps the elements of category `c`.
proof fn lemma_pushes_keep(c: Category)
    ensures
        forall|e: Seq<ElementView>, x: ElementView|
            x.0 != c ==> #[trigger] of_category(e.push(x), c) == of_category(e, c),
{
    assert forall|e: Seq<ElementView>, x: ElementView| x.0 != c implies #[trigger] of_category(e.push(x), c)
        == of_category(e, c) by {
        lemma_of_category_push(e, x, c);
    }
}

/// Once a checksum (or the filename) is known, one subtoken of the keyword pass adds no other.
proof fn lemma_subtoken_keeps_held(t: TokenView, e: Seq<ElementView>, index: int, c: Category)
    requires
        has_category(e, c),
        c == Category::FileChecksum || c == Category::FileName,
    ensures
        of_category(subtoken_spec(t, e, index).1, c) == of_category(e, c),
{
    lemma_pushes_keep(c);
    lemma_joined_not_held(e, t.subs[index].0, t.subs[index + 1].0, c);
}

/// Once a checksum (or the filename) is known, the keyword pass over subtokens `index..n` adds
/// no other.
proof fn lemma_scan_keeps_held(t: TokenView, e: Seq<ElementView>, index: int, n: int, c: Category)
    requires
        has_category(e, c),
        c == Category::FileChecksum || c == Category::FileName,
    ensures
        of_category(keyword_scan(t, e, index, n).1, c) == of_category(e, c),
    decreases n - index,
{
    if index < n {
        let r = subtoken_spec(t, e, index);
        lemma_subtoken_keeps_held(t, e, index, c);
        crate::elements::law_category_empty(e, c);
        crate::elements::law_category_empty(r.1, c);
        lemma_scan_keeps_held(r.0, r.1, index + 1, n, c);
    }
}

/// The keyword pass on one token never adds a second checksum: once one is known, the checksums
/// stay as they are.
pub proof fn law_single_token_one_checksum(t: TokenView, e: Seq<ElementView>)
    requires
        has_category(e, Category::FileChecksum),
    ensures
        of_category(single_token_spec(t, e).1, Category::FileChecksum) == of_category(e, Category::FileChecksum),
{
    lemma_scan_keeps_held(t, e, 0, t.subs.len() as int, Category::FileChecksum);
}

/// A season prefix followed by a number: when an unclassified word that the keyword table knows
/// as a season prefix (written in ASCII letters, not a checksum, not an audio term) is not
/// preceded by an ordinal and is followed by a number `v`, the keyword pass records the prefix,
/// then `v` as the season, and marks both found. Nothing else in the token changes.
pub proof fn law_season_prefix_number(t: TokenView, e: Seq<ElementView>, index: int)
    requires
        0 <= index,
        index + 1 < t.subs.len(),
        t.subs[index].1 != SubTokenCategory::Found,
        t.subs[index].0.len() > 0,
        forall|j: int| 0 <= j < t.subs[index].0.len() ==> crate::text::is_ascii_alpha(#[trigger] t.subs[index].0[j]),
        !crc32_spec(t.subs[index].0),
        upper_of(t.subs[index].0) != "E"@,
        upper_of(t.subs[index].0) != "DTS"@,
        keyword_of(t.subs[index].0) matches Some(kw) && kw.category == Category::AnimeSeasonPrefix,
        !has_category(e, Category::AnimeSeasonPrefix),
        index == 0 || ordinal_value(lower_of(t.subs[index - 1].0)).len() == 0,
        digit_spec(t.subs[index + 1].0),
    ensures
        subtoken_spec(t, e, index).1 == e.push((Category::AnimeSeasonPrefix, t.subs[index].0)).push(
            (Category::AnimeSeason, t.subs[index + 1].0),
        ),
        subtoken_spec(t, e, index).0.subs.len() == t.subs.len(),
        subtoken_spec(t, e, index).0.subs[index] == (t.subs[index].0, SubTokenCategory::Found),
        subtoken_spec(t, e, index).0.subs[index + 1] == (t.subs[index + 1].0, SubTokenCategory::Found),
        forall|j: int| 0 <= j < t.subs.len() && j != index && j != index + 1 ==> (#[trigger] subtoken_spec(
            t,
            e,
            index,
        ).0.subs[j]) == t.subs[j],
        subtoken_spec(t, e, index).0.raw == t.raw,
{
    let tested = t.subs[index].0;
    assert(crate::text::is_ascii_alpha(tested[0]));
    assert(!digit_spec(tested)) by {
        assert(unsigned_part(tested) == tested);
        assert(!is_ascii_digit(tested[0]));
    }
    assert(!resolution_spec(tested)) by {
        if tested.len() >= 2 {
            assert(!is_ascii_digit(tested.drop_last()[0]));
            assert(crate::text::is_ascii_alpha(tested[1]));
        }
        if exists|k: int| #[trigger] crate::parsing::number::is_first_dimension_sep(tested, k)
            && crate::parsing::number::dimension_ok(tested.subrange(0, k))
            && crate::parsing::number::dimension_ok(tested.subrange(k + 1, tested.len() as int)) {
            let k = choose|k: int| #[trigger] crate::parsing::number::is_first_dimension_sep(tested, k)
                && crate::parsing::number::dimension_ok(tested.subrange(0, k))
                && crate::parsing::number::dimension_ok(tested.subrange(k + 1, tested.len() as int));
            assert(tested.subrange(0, k)[0] == tested[0]);
        }
    }
    assert(!e.contains((Category::AnimeSeasonPrefix, tested)));
}

/// The keyword pass over subtokens `index..n` of a token.
pub open spec fn keyword_scan(t: TokenView, e: Seq<ElementView>, index: int, n: int) -> ScanState
    decreases n - index,
{
    if index >= n {
        (t, e)
    } else {
        let next = subtoken_spec(t, e, index);
        keyword_scan(next.0, next.1, index + 1, n)
    }
}

/// The keyword pass over a whole token.
pub open spec fn single_token_spec(t: TokenView, e: Seq<ElementView>) -> ScanState {
    keyword_scan(t, e, 0, t.subs.len() as int)
}

/// Two numbers in a row (see `number_pair_spec`).
fn scan_number_pair(
    elements: &mut Elements,
    token: &mut Token,
    manager: &Manager,
    index: usize,
    raw: &Vec<char>,
    Ghost(orig): Ghost<TokenView>,
    Ghost(orig_e): Ghost<Seq<ElementView>>,
)
    requires
        manager@ == keyword_table(),
        pass_state(orig, old(token)@, orig_e, old(elements)@),
        index + 1 < orig.subs.len(),
        raw@ == orig.raw,
    ensures
        pass_state(orig, final(token)@, orig_e, final(elements)@),
        (final(token)@, final(elements)@) == number_pair_spec(old(token)@, old(elements)@, index as int),
{
    let n = token.len();
    assert(n - index > 1);
    let inside_delimiter = token.is_inside_delimiter();
    let left_s = string_of(&chars_of(token.sub_value(index)));
    let right_s = string_of(&chars_of(token.sub_value(index + 1)));
    let left = left_s.as_str();
    let right = right_s.as_str();
    if str_eq(left, "5") && str_eq(right, "1") {
        mark(token, index, Ghost(orig));
        mark(token, index + 1, Ghost(orig));
        record(elements, Category::AudioTerm, "5.1", Ghost(orig_e));
    } else {
        let ghost before_e = elements@;
        if parse_multiple_keyword(elements, manager, left, right) {
            proof {
                assert(grows(before_e, elements@)) by {
                    assert(elements@.subrange(0, before_e.len() as int) =~= before_e);
                }
                lemma_grows_trans(orig_e, before_e, elements@);
            }
            mark(token, index, Ghost(orig));
            mark(token, index + 1, Ghost(orig));
        } else if inside_delimiter && is_digit(right) {
            let decimal = join3(&chars_of(left), '.', &chars_of(right));
            if contains_seq(raw, &decimal) {
                let preceding_is_numeric = index == 0 || token.sub_is(index - 1, SubTokenCategory::Found)
                    || is_digit(token.sub_value(index - 1));
                if preceding_is_numeric {
                    mark(token, index, Ghost(orig));
                    mark(token, index + 1, Ghost(orig));
                }
            }
        }
    }
}

/// The audio terms "E-AC-3" and "DTS-ES" (see `audio_term_spec`); says whether it recorded one.
fn scan_audio_term(
    elements: &mut Elements,
    token: &mut Token,
    index: usize,
    tested_value: &str,
    Ghost(orig): Ghost<TokenView>,
    Ghost(orig_e): Ghost<Seq<ElementView>>,
) -> (done: bool)
    requires
        pass_state(orig, old(token)@, orig_e, old(elements)@),
        index < orig.subs.len(),
        tested_value@ == old(token)@.subs[index as int].0,
    ensures
        pass_state(orig, final(token)@, orig_e, final(elements)@),
        match audio_term_spec(old(token)@, old(elements)@, index as int) {
            Some(r) => done && (final(token)@, final(elements)@) == r,
            None => !done && final(token)@ == old(token)@ && final(elements)@ == old(elements)@,
        },
{
    let n = token.len();
    let upper = to_upper(tested_value);
    if str_eq(upper.as_str(), "E") && n - index > 2 {
        let mut sk = chars_of(tested_value);
        sk.push('-');
        sk = concat(&sk, &chars_of(token.sub_value(index + 1)));
        sk.push('-');
        sk = concat(&sk, &chars_of(token.sub_value(index + 2)));
        let sk_s = string_of(&sk);
        let sk_upper = to_upper(sk_s.as_str());
        assert(sk@ =~= tested_value@.push('-') + token@.subs[index + 1].0 + seq!['-'] + token@.subs[index + 2].0);
        if str_eq(sk_upper.as_str(), "E-AC-3") {
            mark(token, index, Ghost(orig));
            mark(token, index + 1, Ghost(orig));
            mark(token, index + 2, Ghost(orig));
            record(elements, Category::AudioTerm, sk_s.as_str(), Ghost(orig_e));
            return true;
        }
    }
    if str_eq(upper.as_str(), "DTS") && n - index > 1 {
        let mut sk = chars_of(tested_value);
        sk.push('-');
        sk = concat(&sk, &chars_of(token.sub_value(index + 1)));
        let sk_s = string_of(&sk);
        let sk_upper = to_upper(sk_s.as_str());
        if str_eq(sk_upper.as_str(), "DTS-ES") {
            mark(token, index, Ghost(orig));
            mark(token, index + 1, Ghost(orig));
            record(elements, Category::AudioTerm, sk_s.as_str(), Ghost(orig_e));
            return true;
        }
    }
    proof {
        reveal_strlit("E");
        reveal_strlit("DTS");
    }
    false
}

/// A season prefix (see `season_prefix_spec`).
fn scan_season_prefix(
    elements: &mut Elements,
    token: &mut Token,
    index: usize,
    tested_value: &str,
    Ghost(orig): Ghost<TokenView>,
    Ghost(orig_e): Ghost<Seq<ElementView>>,
)
    requires
        pass_state(orig, old(token)@, orig_e, old(elements)@),
        index < orig.subs.len(),
        tested_value@ == old(token)@.subs[index as int].0,
    ensures
        pass_state(orig, final(token)@, orig_e, final(elements)@),
        (final(token)@, final(elements)@) == season_prefix_spec(old(token)@, old(elements)@, index as int),
{
    let n = token.len();
    record(elements, Category::AnimeSeasonPrefix, tested_value, Ghost(orig_e));
    mark(token, index, Ghost(orig));
    if index >= 1 {
        let previous = string_of(&chars_of(token.sub_value(index - 1)));
        let p_season = ordinals_to_nb(previous.as_str());
        if chars_of(p_season).len() != 0 {
            record(elements, Category::AnimeSeason, p_season, Ghost(orig_e));
            mark(token, index - 1, Ghost(orig));
            return;
        }
    }
    if n - index > 1 {
        let next = string_of(&chars_of(token.sub_value(index + 1)));
        if is_digit(next.as_str()) {
            record(elements, Category::AnimeSeason, next.as_str(), Ghost(orig_e));
            mark(token, index + 1, Ghost(orig));
        }
    }
}

/// An episode prefix (see `episode_prefix_spec`).
fn scan_episode_prefix(
    elements: &mut Elements,
    token: &mut Token,
    index: usize,
    tested_value: &str,
    is_valid: bool,
    Ghost(orig): Ghost<TokenView>,
    Ghost(orig_e): Ghost<Seq<ElementView>>,
)
    requires
        pass_state(orig, old(token)@, orig_e, old(elements)@),
        index < orig.subs.len(),
        tested_value@ == old(token)@.subs[index as int].0,
    ensures
        pass_state(orig, final(token)@, orig_e, final(elements)@),
        (final(token)@, final(elements)@) == episode_prefix_spec(old(token)@, old(elements)@, index as int, is_valid),
{
    let n = token.len();
    if n - index > 1 {
        let next = string_of(&chars_of(token.sub_value(index + 1)));
        if is_digit(next.as_str()) {
            let left: i32 = parse_or_else(next.as_str(), 0);
            record(elements, Category::EpisodeNumber, next.as_str(), Ghost(orig_e));
            mark(token, index + 1, Ghost(orig));
            if n - index > 2 {
                let after = string_of(&chars_of(token.sub_value(index + 2)));
                if is_digit(after.as_str()) {
                    let right: i32 = parse_or_else(after.as_str(), 0);
                    if left < right {
                        record(elements, Category::EpisodeNumber, after.as_str(), Ghost(orig_e));
                        mark(token, index + 2, Ghost(orig));
                    }
                }
            }
            if is_valid {
                record(elements, Category::EpisodePrefix, tested_value, Ghost(orig_e));
            }
            mark(token, index, Ghost(orig));
            return;
        }
    }
    if is_valid {
        record(elements, Category::EpisodePrefix, tested_value, Ghost(orig_e));
        mark(token, index, Ghost(orig));
    }
}

/// A volume prefix (see `volume_prefix_spec`).
fn scan_volume_prefix(
    elements: &mut Elements,
    token: &mut Token,
    index: usize,
    tested_value: &str,
    identifiable: bool,
    Ghost(orig): Ghost<TokenView>,
    Ghost(orig_e): Ghost<Seq<ElementView>>,
)
    requires
        pass_state(orig, old(token)@, orig_e, old(elements)@),
        index < orig.subs.len(),
        tested_value@ == old(token)@.subs[index as int].0,
    ensures
        pass_state(orig, final(token)@, orig_e, final(elements)@),
        (final(token)@, final(elements)@) == volume_prefix_spec(old(token)@, old(elements)@, index as int, identifiable),
{
    let n = token.len();
    let c = Category::VolumePrefix;
    if n - index > 1 {
        let next = string_of(&chars_of(token.sub_value(index + 1)));
        if is_digit(next.as_str()) {
            if !identifiable {
                record(elements, c, tested_value, Ghost(orig_e));
            }
            record(elements, Category::VolumeNumber, next.as_str(), Ghost(orig_e));
            mark(token, index + 1, Ghost(orig));
            mark(token, index, Ghost(orig));
            return;
        }
        let next_chars = chars_of(next.as_str());
        let nl = next_chars.len();
        let mut lead: usize = 0;
        while lead < nl && crate::text::ascii_digit(next_chars[lead])
            invariant
                nl == next_chars@.len(),
                0 <= lead <= nl,
                forall|j: int| 0 <= j < lead ==> is_ascii_digit(#[trigger] next_chars@[j]),
            decreases nl - lead,
        {
            lead = lead + 1;
        }
        proof {
            lemma_digit_prefix_unique(next_chars@, lead as int);
        }
        if lead > 0 {
            let leading_digits = string_of(&slice_of(&next_chars, 0, lead));
            if lead < nl && (next_chars[lead] == 'v' || next_chars[lead] == 'V') {
                let version = string_of(&slice_of(&next_chars, lead + 1, nl));
                if is_digit(version.as_str()) {
                    if !identifiable {
                        record(elements, c, tested_value, Ghost(orig_e));
                    }
                    record(elements, Category::VolumeNumber, leading_digits.as_str(), Ghost(orig_e));
                    record(elements, Category::ReleaseVersion, version.as_str(), Ghost(orig_e));
                    mark(token, index + 1, Ghost(orig));
                    mark(token, index, Ghost(orig));
                    return;
                }
            }
        }
    }
    if !identifiable {
        record(elements, Category::AnimeType, tested_value, Ghost(orig_e));
    } else {
        record(elements, c, tested_value, Ghost(orig_e));
        mark(token, index, Ghost(orig));
    }
}

/// A subtoken that the keyword table knows (see `keyword_spec`); says whether it was dealt with.
fn scan_keyword(
    elements: &mut Elements,
    token: &mut Token,
    manager: &Manager,
    index: usize,
    tested_value: &str,
    Ghost(orig): Ghost<TokenView>,
    Ghost(orig_e): Ghost<Seq<ElementView>>,
) -> (handled: bool)
    requires
        manager@ == keyword_table(),
        pass_state(orig, old(token)@, orig_e, old(elements)@),
        index < orig.subs.len(),
        tested_value@ == old(token)@.subs[index as int].0,
    ensures
        pass_state(orig, final(token)@, orig_e, final(elements)@),
        match keyword_spec(old(token)@, old(elements)@, index as int) {
            Some(r) => handled && (final(token)@, final(elements)@) == r,
            None => !handled && final(token)@ == old(token)@ && final(elements)@ == old(elements)@,
        },
{
    let inside_delimiter = token.is_inside_delimiter();
    let is_paren = token.is_paren();
    let keyword = match manager.find(tested_value) {
        Some(k) => k,
        None => {
            return false;
        },
    };
    let c = keyword.get_category();
    let skip = !c.is_searchable() || (c.is_singular() && !elements.is_category_empty(c))
        || elements.contains(c, tested_value);
    if skip || (c == Category::Language && !keyword.is_identifiable() && !inside_delimiter) {
        return true;
    }
    if scan_audio_term(elements, token, index, tested_value, Ghost(orig), Ghost(orig_e)) {
        return true;
    }
    if c == Category::AnimeSeasonPrefix {
        scan_season_prefix(elements, token, index, tested_value, Ghost(orig), Ghost(orig_e));
        return true;
    }
    if c == Category::EpisodePrefix {
        scan_episode_prefix(elements, token, index, tested_value, keyword.is_valid(), Ghost(orig), Ghost(orig_e));
        return true;
    }
    if c == Category::ReleaseVersion {
        let lower = to_lower(tested_value);
        let vs = vec!['v'];
        assert(vs@ =~= seq!['v']);
        let release = crate::utils::remove_all_chars(&chars_of(lower.as_str()), &vs);
        let release_s = string_of(&release);
        record(elements, Category::ReleaseVersion, release_s.as_str(), Ghost(orig_e));
        mark(token, index, Ghost(orig));
        return true;
    }
    if c == Category::VolumePrefix {
        scan_volume_prefix(elements, token, index, tested_value, keyword.is_identifiable(), Ghost(orig), Ghost(orig_e));
        return true;
    }
    if c == Category::AnimeType {
        if inside_delimiter && other_unknown(token, index, manager, true) {
            return true;
        }
        record(elements, c, tested_value, Ghost(orig_e));
        if !keyword.is_searchable() {
            mark(token, index, Ghost(orig));
        }
        return true;
    }
    if c == Category::Language {
        if inside_delimiter && is_paren && other_unknown(token, index, manager, false) {
            return true;
        }
        if language_known(elements, tested_value) {
            return true;
        }
        record(elements, c, tested_value, Ghost(orig_e));
        mark(token, index, Ghost(orig));
        return true;
    }
    if c == Category::ReleaseGroup && inside_delimiter && any_other_unknown(token, index) {
        return true;
    }
    if c == Category::Subtitles && !inside_delimiter && elements.is_category_empty(Category::Language) {
        mark(token, index, Ghost(orig));
        return true;
    }
    if c == Category::Unknown {
        return false;
    }
    if c == Category::ReleaseInformation && !keyword.is_identifiable() && found_before(token, index) {
        mark(token, index, Ghost(orig));
        return true;
    }
    if c == Category::ReleaseInformation && inside_delimiter && !is_paren && index > 0
        && token.sub_is(0, SubTokenCategory::Unknow) {
        return true;
    }
    record(elements, c, tested_value, Ghost(orig_e));
    mark(token, index, Ghost(orig));
    true
}

/// The keyword pass at subtoken `index` (see `subtoken_spec`).
fn scan_subtoken(
    elements: &mut Elements,
    token: &mut Token,
    manager: &Manager,
    index: usize,
    raw: &Vec<char>,
    Ghost(orig): Ghost<TokenView>,
    Ghost(orig_e): Ghost<Seq<ElementView>>,
)
    requires
        manager@ == keyword_table(),
        pass_state(orig, old(token)@, orig_e, old(elements)@),
        index < orig.subs.len(),
        raw@ == orig.raw,
    ensures
        pass_state(orig, final(token)@, orig_e, final(elements)@),
        (final(token)@, final(elements)@) == subtoken_spec(old(token)@, old(elements)@, index as int),
{
    let n = token.len();
    let tested_chars = chars_of(token.sub_value(index));
    let tested_value_s = string_of(&tested_chars);
    let tested_value = tested_value_s.as_str();
    if tested_chars.len() == 0 || token.sub_is(index, SubTokenCategory::Found) {
        return;
    }
    if is_digit(tested_value) && utf8_len_of(&tested_chars) != 8 {
        if n - index > 1 {
            scan_number_pair(elements, token, manager, index, raw, Ghost(orig), Ghost(orig_e));
        }
        return;
    }
    if is_crc32(tested_value) && elements.is_category_empty(Category::FileChecksum) {
        record(elements, Category::FileChecksum, tested_value, Ghost(orig_e));
        mark(token, index, Ghost(orig));
        return;
    }
    if is_resolution(tested_value) {
        record(elements, Category::VideoResolution, tested_value, Ghost(orig_e));
        mark(token, index, Ghost(orig));
        return;
    }
    if scan_keyword(elements, token, manager, index, tested_value, Ghost(orig), Ghost(orig_e)) {
        return;
    }
    if n - index > 1 {
        let left = string_of(&chars_of(token.sub_value(index)));
        let right = string_of(&chars_of(token.sub_value(index + 1)));
        let ghost before_e = elements@;
        if parse_multiple_keyword(elements, manager, left.as_str(), right.as_str()) {
            proof {
                assert(grows(before_e, elements@)) by {
                    assert(elements@.subrange(0, before_e.len() as int) =~= before_e);
                }
                lemma_grows_trans(orig_e, before_e, elements@);
            }
            mark(token, index, Ghost(orig));
            mark(token, index + 1, Ghost(orig));
        }
    }
}

/// The state the keyword pass on one token keeps between two subtokens.
pub open spec fn pass_state(
    orig: TokenView,
    token: TokenView,
    orig_e: Seq<ElementView>,
    elements: Seq<ElementView>,
) -> bool {
    token_marked(orig, token) && grows(orig_e, elements)
}

/// Runs the keyword recognition pass on a single token, marking matched subtokens as `Found`.
pub fn parsing_single_token(elements: &mut Elements, token: &mut Token, manager: &Manager)
    ensures
        (final(token)@, final(elements)@) == single_token_spec(old(token)@, old(elements)@),
        token_marked(old(token)@, final(token)@),
        grows(old(elements)@, final(elements)@),
{
    proof {
        use_type_invariant(manager);
    }
    let ghost orig = token@;
    let ghost orig_e = elements@;
    proof {
        lemma_token_marked_refl(orig);
        lemma_grows_refl(orig_e);
    }
    let raw = chars_of(token.raw_token());
    let n = token.len();
    let mut index: usize = 0;
    while index < n
        invariant
            n == orig.subs.len(),
            0 <= index <= n,
            raw@ == orig.raw,
            pass_state(orig, token@, orig_e, elements@),
            manager@ == keyword_table(),
            single_token_spec(orig, orig_e) == keyword_scan(token@, elements@, index as int, n as int),
        decreases n - index,
    {
        scan_subtoken(elements, token, manager, index, &raw, Ghost(orig), Ghost(orig_e));
        index = index + 1;
    }
}

/// What the keyword pass does with one token: the pass on its subtokens, then a lone number left
/// unclassified is a year when it looks like one, and a common resolution (480, 720, 1080)
/// when none is known yet.
pub open spec fn keyword_token_spec(t: TokenView, e: Seq<ElementView>) -> ScanState {
    let r = single_token_spec(t, e);
    let t1 = r.0;
    let e1 = r.1;
    let v = t1.subs[0].0;
    if has_unknown(t1) && t1.subs.len() == 1 && digit_spec(v) && t1.subs[0].1 != SubTokenCategory::Found {
        let t2 = if anime_year_spec(v) { mark_token(t1, 0) } else { t1 };
        let e2 = if anime_year_spec(v) { e1.push((Category::AnimeYear, v)) } else { e1 };
        if (v == "480"@ || v == "720"@ || v == "1080"@) && !has_category(e2, Category::VideoResolution) {
            (mark_token(t2, 0), e2.push((Category::VideoResolution, v)))
        } else {
            (t2, e2)
        }
    } else {
        (t1, e1)
    }
}

/// The keyword pass over tokens `ti..n`.
pub open spec fn keywords_spec(ts: Seq<TokenView>, e: Seq<ElementView>, ti: int, n: int) -> (Seq<TokenView>, Seq<ElementView>)
    decreases n - ti,
{
    if ti >= n {
        (ts, e)
    } else {
        let r = keyword_token_spec(ts[ti], e);
        keywords_spec(ts.update(ti, r.0), r.1, ti + 1, n)
    }
}

/// Once the filename is recorded, the keyword pass on one token records no other.
proof fn lemma_keyword_token_file_name(t: TokenView, e: Seq<ElementView>)
    requires
        has_category(e, Category::FileName),
    ensures
        of_category(keyword_token_spec(t, e).1, Category::FileName) == of_category(e, Category::FileName),
{
    lemma_scan_keeps_held(t, e, 0, t.subs.len() as int, Category::FileName);
    lemma_pushes_keep(Category::FileName);
}

/// Once the filename is recorded, the keyword pass over tokens `ti..n` records no other.
pub proof fn lemma_keywords_file_name(ts: Seq<TokenView>, e: Seq<ElementView>, ti: int, n: int)
    requires
        has_category(e, Category::FileName),
    ensures
        of_category(keywords_spec(ts, e, ti, n).1, Category::FileName) == of_category(e, Category::FileName),
    decreases n - ti,
{
    if ti < n {
        let r = keyword_token_spec(ts[ti], e);
        lemma_keyword_token_file_name(ts[ti], e);
        crate::elements::law_category_empty(e, Category::FileName);
        crate::elements::law_category_empty(r.1, Category::FileName);
        lemma_keywords_file_name(ts.update(ti, r.0), r.1, ti + 1, n);
    }
}

/// Runs the keyword recognition pass across all tokens.
pub fn parsing_keywords(elements: &mut Elements, tokens: &mut Vec<Token>)
    ensures
        (tokens_view(final(tokens)@), final(elements)@) == keywords_spec(
            tokens_view(old(tokens)@),
            old(elements)@,
            0,
            old(tokens)@.len() as int,
        ),
        tokens_marked(tokens_view(old(tokens)@), tokens_view(final(tokens)@)),
        grows(old(elements)@, final(elements)@),
{
    let manager = Manager::new();
    parsing_keywords_with(elements, tokens, &manager)
}

/// Runs the keyword recognition pass across all tokens, looking keywords up in `manager`.
pub fn parsing_keywords_with(elements: &mut Elements, tokens: &mut Vec<Token>, manager: &Manager)
    ensures
        (tokens_view(final(tokens)@), final(elements)@) == keywords_spec(
            tokens_view(old(tokens)@),
            old(elements)@,
            0,
            old(tokens)@.len() as int,
        ),
        tokens_marked(tokens_view(old(tokens)@), tokens_view(final(tokens)@)),
        grows(old(elements)@, final(elements)@),
{
    proof {
        use_type_invariant(manager);
    }
    let ghost orig_e = elements@;
    let ghost total = keywords_spec(tokens_view(tokens@), elements@, 0, tokens@.len() as int);
    proof {
        lemma_tokens_marked_refl(tokens_view(tokens@));
        lemma_grows_refl(orig_e);
    }
    let n = tokens.len();
    let mut ti: usize = 0;
    while ti < n
        invariant
            n == tokens@.len(),
            n == old(tokens)@.len(),
            0 <= ti <= n,
            tokens_marked(tokens_view(old(tokens)@), tokens_view(tokens@)),
            grows(orig_e, elements@),
            manager@ == keyword_table(),
            orig_e == old(elements)@,
            total == keywords_spec(tokens_view(old(tokens)@), old(elements)@, 0, n as int),
            total == keywords_spec(tokens_view(tokens@), elements@, ti as int, n as int),
        decreases n - ti,
    {
        let ghost before = tokens@;
        let ghost before_e = elements@;
        parsing_single_token(elements, &mut tokens[ti], manager);
        let ghost orig = before[ti as int]@;
        let ghost mid = tokens@[ti as int]@;
        let ghost mid_e = elements@;
        proof {
            lemma_grows_trans(orig_e, before_e, elements@);
        }
        if tokens[ti].contains_unknow() && tokens[ti].is_isolated_number() {
            let value = string_of(&chars_of(tokens[ti].sub_value(0)));
            if is_anime_year(value.as_str()) {
                record(elements, Category::AnimeYear, value.as_str(), Ghost(orig_e));
                mark(&mut tokens[ti], 0, Ghost(orig));
            }
            let common = str_eq(value.as_str(), "480") || str_eq(value.as_str(), "720") || str_eq(value.as_str(), "1080");
            if common && elements.is_category_empty(Category::VideoResolution) {
                record(elements, Category::VideoResolution, value.as_str(), Ghost(orig_e));
                mark(&mut tokens[ti], 0, Ghost(orig));
            }
        }
        proof {
            assert(tokens_view(tokens@) =~= tokens_view(before).update(ti as int, tokens@[ti as int]@));
            assert((tokens@[ti as int]@, elements@) == keyword_token_spec(before[ti as int]@, before_e));
            assert forall|j: int| 0 <= j < n implies token_marked(#[trigger] tokens_view(before)[j], tokens_view(tokens@)[j]) by {
                if j != ti {
                    lemma_token_marked_refl(before[j]@);
                }
            }
            lemma_tokens_marked_trans(tokens_view(old(tokens)@), tokens_view(before), tokens_view(tokens@));
        }
        ti = ti + 1;
    }
}

} // verus!
