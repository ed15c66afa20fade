//! Filename and token splitting utilities.
use vstd::prelude::*;

use crate::text::{char_in, chars_of, is_ascii_digit, slice_of, string_of, trim_chars, trimmed};
use crate::token::main_token::{Token, token_spec};

verus! {

// ---------------------------------------------------------------------------
// split_type_and_ep
// ---------------------------------------------------------------------------

/// `k` is the position of the first ASCII digit of `s`, or `s.len()` when there is none.
pub open spec fn is_type_split(s: Seq<char>, k: int) -> bool {
    &&& 0 <= k <= s.len()
    &&& forall|j: int| 0 <= j < k ==> !is_ascii_digit(#[trigger] s[j])
    &&& (k < s.len() ==> is_ascii_digit(s[k]))
}

/// There is one position of the first ASCII digit.
pub proof fn lemma_type_split_unique(s: Seq<char>, k1: int, k2: int)
    requires
        is_type_split(s, k1),
        is_type_split(s, k2),
    ensures
        k1 == k2,
{
    if k1 < k2 {
        assert(!is_ascii_digit(s[k1]));
    }
    if k2 < k1 {
        assert(!is_ascii_digit(s[k2]));
    }
}

/// Splits a compound string like `"OVA3"` into its alpha prefix and digit suffix.
pub fn split_type_and_ep(to_parse: &str) -> (r: (&str, &str))
    ensures
        exists|k: int| #[trigger] is_type_split(to_parse@, k)
            && r.0@ == to_parse@.subrange(0, k)
            && r.1@ == to_parse@.subrange(k, to_parse@.len() as int),
{
    let cs = chars_of(to_parse);
    let n = cs.len();
    let mut k: usize = 0;
    while k < n && !crate::text::ascii_digit(cs[k])
        invariant
            n == cs@.len(),
            cs@ == to_parse@,
            0 <= k <= n,
            forall|j: int| 0 <= j < k ==> !is_ascii_digit(#[trigger] cs@[j]),
        decreases n - k,
    {
        k = k + 1;
    }
    assert(is_type_split(to_parse@, k as int));
    (to_parse.substring_char(0, k), to_parse.substring_char(k, n))
}

// ---------------------------------------------------------------------------
// split_token
// ---------------------------------------------------------------------------

/// The subtokens of the already trimmed text `t`, scanning from position `i` with the current
/// segment starting at `seg`: each delimiter ends a non-empty segment, and a delimiter followed
/// by two more delimiters yields the second of them as a subtoken of its own.
pub open spec fn split_from(t: Seq<char>, d: Seq<char>, i: int, seg: int) -> Seq<Seq<char>>
    decreases t.len() - i,
{
    if i >= t.len() {
        if seg < t.len() {
            seq![t.subrange(seg, t.len() as int)]
        } else {
            Seq::empty()
        }
    } else if d.contains(t[i]) {
        let head = if i > seg {
            seq![t.subrange(seg, i)]
        } else {
            Seq::<Seq<char>>::empty()
        };
        if i + 2 < t.len() && d.contains(t[i + 1]) && d.contains(t[i + 2]) {
            head + seq![seq![t[i + 1]]] + split_from(t, d, i + 2, i + 2)
        } else {
            head + split_from(t, d, i + 1, i + 1)
        }
    } else {
        split_from(t, d, i + 1, seg)
    }
}

/// The subtoken texts of a raw token: it is trimmed of delimiters on both ends, then split.
pub open spec fn split_token_spec(raw: Seq<char>, d: Seq<char>) -> Seq<Seq<char>> {
    split_from(trimmed(raw, d), d, 0, 0)
}

/// Splits a raw token string into subtoken strings on the given delimiters.
pub fn split_token(raw_token: &str, delimiter: &[char]) -> (r: Vec<String>)
    ensures
        r@.map_values(|s: String| s@) == split_token_spec(raw_token@, delimiter@),
{
    let raw = chars_of(raw_token);
    let t = trim_chars(&raw, delimiter);
    let ghost ts = t@;
    let ghost d = delimiter@;
    let len = t.len();
    let mut out: Vec<String> = Vec::new();
    let mut i: usize = 0;
    let mut seg: usize = 0;
    while i < len
        invariant
            len == ts.len(),
            ts == t@,
            d == delimiter@,
            0 <= seg <= i <= len,
            out@.map_values(|s: String| s@) + split_from(ts, d, i as int, seg as int) == split_from(ts, d, 0, 0),
        decreases len - i,
    {
        let c = t[i];
        if char_in(delimiter, c) {
            let ghost before = out@.map_values(|s: String| s@);
            if i > seg {
                let piece = slice_of(&t, seg, i);
                out.push(string_of(&piece));
            }
            if len - i > 2 && char_in(delimiter, t[i + 1]) && char_in(delimiter, t[i + 2]) {
                let single = slice_of(&t, i + 1, i + 2);
                assert(single@ =~= seq![ts[i + 1]]);
                out.push(string_of(&single));
                proof {
                    let head = if i > seg { seq![ts.subrange(seg as int, i as int)] } else { Seq::<Seq<char>>::empty() };
                    assert(out@.map_values(|s: String| s@) =~= before + head + seq![seq![ts[i + 1]]]);
                }
                i = i + 2;
            } else {
                proof {
                    let head = if i > seg { seq![ts.subrange(seg as int, i as int)] } else { Seq::<Seq<char>>::empty() };
                    assert(out@.map_values(|s: String| s@) =~= before + head);
                }
                i = i + 1;
            }
            seg = i;
        } else {
            i = i + 1;
        }
    }
    if seg < len {
        let ghost before = out@.map_values(|s: String| s@);
        let piece = slice_of(&t, seg, len);
        out.push(string_of(&piece));
        assert(out@.map_values(|s: String| s@) =~= before + seq![ts.subrange(seg as int, len as int)]);
    } else {
        assert(out@.map_values(|s: String| s@) =~= out@.map_values(|s: String| s@) + Seq::<Seq<char>>::empty());
    }
    out
}

// ---------------------------------------------------------------------------
// split_raw_data
// ---------------------------------------------------------------------------

/// Opening brackets, including the Japanese and full-width ones.
pub open spec fn is_open_bracket(c: char) -> bool {
    c == '[' || c == '(' || c == '{' || c == '\u{300C}' || c == '\u{300E}' || c == '\u{3010}' || c == '\u{FF08}'
}

/// Closing brackets, including the Japanese and full-width ones.
pub open spec fn is_close_bracket(c: char) -> bool {
    c == ']' || c == ')' || c == '}' || c == '\u{300D}' || c == '\u{300F}' || c == '\u{3011}' || c == '\u{FF09}'
}

/// Closing parentheses (plain and full-width).
pub open spec fn is_paren_close(c: char) -> bool {
    c == ')' || c == '\u{FF09}'
}

/// Closing Japanese corner brackets.
pub open spec fn is_corner_close(c: char) -> bool {
    c == '\u{300D}' || c == '\u{300F}'
}

/// A segment of the filename: its text, whether a bracket closed it, whether that bracket
/// was a parenthesis, and whether it was a Japanese corner bracket.
pub type Segment = (Seq<char>, bool, bool, bool);

/// The segments of `s` from position `i`, the current segment starting at `start`: every
/// bracket ends a non-empty segment; a closing bracket marks it as enclosed.
pub open spec fn segments_from(s: Seq<char>, i: int, start: int) -> Seq<Segment>
    decreases s.len() - i,
{
    if i >= s.len() {
        if s.len() > start {
            seq![(s.subrange(start, s.len() as int), false, false, false)]
        } else {
            Seq::empty()
        }
    } else if is_open_bracket(s[i]) {
        (if i > start {
            seq![(s.subrange(start, i), false, false, false)]
        } else {
            Seq::<Segment>::empty()
        }) + segments_from(s, i + 1, i + 1)
    } else if is_close_bracket(s[i]) {
        (if i > start {
            seq![(s.subrange(start, i), true, is_paren_close(s[i]), is_corner_close(s[i]))]
        } else {
            Seq::<Segment>::empty()
        }) + segments_from(s, i + 1, i + 1)
    } else {
        segments_from(s, i + 1, start)
    }
}

/// The tokens `split_raw_data` makes of `raw` with delimiters `d`.
pub open spec fn split_raw_spec(raw: Seq<char>, d: Seq<char>) -> Seq<crate::token::main_token::TokenView> {
    segments_from(raw, 0, 0).map_values(|g: Segment| token_spec(g.0, d, g.1, g.2, g.3))
}

/// Whether `c` opens a bracket.
fn open_bracket(c: char) -> (r: bool)
    ensures
        r == is_open_bracket(c),
{
    c == '[' || c == '(' || c == '{' || c == '\u{300C}' || c == '\u{300E}' || c == '\u{3010}' || c == '\u{FF08}'
}

/// Whether `c` closes a bracket.
fn close_bracket(c: char) -> (r: bool)
    ensures
        r == is_close_bracket(c),
{
    c == ']' || c == ')' || c == '}' || c == '\u{300D}' || c == '\u{300F}' || c == '\u{3011}' || c == '\u{FF09}'
}

/// Splits a filename string into [`Token`]s, respecting bracket pairs (including Japanese brackets).
pub fn split_raw_data(raw_data: &str, delimiter: &[char]) -> (r: Vec<Token>)
    ensures
        r@.map_values(|t: Token| t@) == split_raw_spec(raw_data@, delimiter@),
{
    let s = chars_of(raw_data);
    let ghost ss = s@;
    let ghost d = delimiter@;
    let ghost f = |g: Segment| token_spec(g.0, d, g.1, g.2, g.3);
    let n = s.len();
    let mut out: Vec<Token> = Vec::new();
    let mut start: usize = 0;
    let mut i: usize = 0;
    while i < n
        invariant
            n == ss.len(),
            ss == s@,
            d == delimiter@,
            f == (|g: Segment| token_spec(g.0, d, g.1, g.2, g.3)),
            0 <= start <= i <= n,
            out@.map_values(|t: Token| t@) + segments_from(ss, i as int, start as int).map_values(f)
                == segments_from(ss, 0, 0).map_values(f),
        decreases n - i,
    {
        let c = s[i];
        let ghost before = out@.map_values(|t: Token| t@);
        let ghost rest = segments_from(ss, i + 1, i + 1);
        if open_bracket(c) {
            if i > start {
                let piece = string_of(&slice_of(&s, start, i));
                out.push(Token::new(piece.as_str(), delimiter, false, false, false));
                let ghost g: Segment = (ss.subrange(start as int, i as int), false, false, false);
                assert((seq![g] + rest).map_values(f) =~= seq![f(g)] + rest.map_values(f));
                assert(out@.map_values(|t: Token| t@) =~= before.push(f(g)));
            } else {
                assert((Seq::<Segment>::empty() + rest).map_values(f) =~= rest.map_values(f));
                assert(out@.map_values(|t: Token| t@) =~= before);
            }
            start = i + 1;
        } else if close_bracket(c) {
            if i > start {
                let paren = c == ')' || c == '\u{FF09}';
                let corner = c == '\u{300D}' || c == '\u{300F}';
                let piece = string_of(&slice_of(&s, start, i));
                out.push(Token::new(piece.as_str(), delimiter, true, paren, corner));
                let ghost g: Segment = (ss.subrange(start as int, i as int), true, paren, corner);
                assert((seq![g] + rest).map_values(f) =~= seq![f(g)] + rest.map_values(f));
                assert(out@.map_values(|t: Token| t@) =~= before.push(f(g)));
            } else {
                assert((Seq::<Segment>::empty() + rest).map_values(f) =~= rest.map_values(f));
                assert(out@.map_values(|t: Token| t@) =~= before);
            }
            start = i + 1;
        }
        i = i + 1;
    }
    let ghost before = out@.map_values(|t: Token| t@);
    if n > start {
        let piece = string_of(&slice_of(&s, start, n));
        out.push(Token::new(piece.as_str(), delimiter, false, false, false));
        let ghost g: Segment = (ss.subrange(start as int, n as int), false, false, false);
        assert(seq![g].map_values(f) =~= seq![f(g)]);
        assert(out@.map_values(|t: Token| t@) =~= before.push(f(g)));
    } else {
        assert(Seq::<Segment>::empty().map_values(f) =~= Seq::empty());
        assert(out@.map_values(|t: Token| t@) =~= before);
    }
    out
}


// ---------------------------------------------------------------------------
// Laws of splitting
// ---------------------------------------------------------------------------

/// The two parts `split_type_and_ep` gives, put together, are the input; the first holds no
/// ASCII digit and the second is empty or starts with one.
pub proof fn law_split_type_and_ep_parts(s: Seq<char>, k: int)
    requires
        is_type_split(s, k),
    ensures
        s.subrange(0, k) + s.subrange(k, s.len() as int) == s,
        forall|j: int| 0 <= j < k ==> !is_ascii_digit(#[trigger] s.subrange(0, k)[j]),
        s.subrange(k, s.len() as int).len() > 0 ==> is_ascii_digit(s.subrange(k, s.len() as int)[0]),
{
    assert(s.subrange(0, k) + s.subrange(k, s.len() as int) =~= s);
}

/// A bracket of any kind.
pub open spec fn is_bracket(c: char) -> bool {
    is_open_bracket(c) || is_close_bracket(c)
}

/// `s` without its brackets.
pub open spec fn without_brackets(s: Seq<char>) -> Seq<char> {
    s.filter(|c: char| !is_bracket(c))
}

/// The texts of `gs`, one after the other.
pub open spec fn segment_texts(gs: Seq<Segment>) -> Seq<char>
    decreases gs.len(),
{
    if gs.len() == 0 {
        Seq::empty()
    } else {
        segment_texts(gs.drop_last()) + gs.last().0
    }
}

/// The texts of two runs of segments, one after the other.
proof fn lemma_segment_texts_add(a: Seq<Segment>, b: Seq<Segment>)
    ensures
        segment_texts(a + b) == segment_texts(a) + segment_texts(b),
    decreases b.len(),
{
    if b.len() == 0 {
        assert(a + b =~= a);
        assert(segment_texts(a) + segment_texts(b) =~= segment_texts(a));
    } else {
        assert((a + b).drop_last() =~= a + b.drop_last());
        lemma_segment_texts_add(a, b.drop_last());
        assert(segment_texts(a + b) =~= segment_texts(a) + segment_texts(b));
    }
}

/// A text without brackets is its own bracket-free text.
proof fn lemma_no_brackets_kept(s: Seq<char>)
    requires
        forall|j: int| 0 <= j < s.len() ==> !is_bracket(#[trigger] s[j]),
    ensures
        without_brackets(s) == s,
    decreases s.len(),
{
    if s.len() > 0 {
        assert forall|j: int| 0 <= j < s.drop_last().len() implies !is_bracket(#[trigger] s.drop_last()[j]) by {
            assert(s.drop_last()[j] == s[j]);
        }
        lemma_no_brackets_kept(s.drop_last());
        s.drop_last().lemma_filter_push(s.last(), |c: char| !is_bracket(c));
        assert(s.drop_last().push(s.last()) =~= s);
        assert(!is_bracket(s[s.len() - 1]));
    }
}

/// Segments from position `i`, the current one starting at `start`: each is non-empty and
/// bracket-free, and their texts together are the bracket-free rest of the text.
proof fn lemma_segments_from(s: Seq<char>, i: int, start: int)
    requires
        0 <= start <= i <= s.len(),
        forall|j: int| start <= j < i ==> !is_bracket(#[trigger] s[j]),
    ensures
        segment_texts(segments_from(s, i, start)) == without_brackets(s.subrange(start, s.len() as int)),
        forall|k: int| 0 <= k < segments_from(s, i, start).len() ==> (#[trigger] segments_from(s, i, start)[k]).0.len() > 0
            && forall|j: int| 0 <= j < segments_from(s, i, start)[k].0.len() ==> !is_bracket(
                #[trigger] segments_from(s, i, start)[k].0[j],
            ),
    decreases s.len() - i,
{
    let gs = segments_from(s, i, start);
    if i >= s.len() {
        if s.len() > start {
            let text = s.subrange(start, s.len() as int);
            assert forall|j: int| 0 <= j < text.len() implies !is_bracket(#[trigger] text[j]) by {
                assert(text[j] == s[start + j]);
            }
            lemma_no_brackets_kept(text);
            assert(gs.drop_last() =~= Seq::<Segment>::empty());
            assert(segment_texts(Seq::<Segment>::empty()) == Seq::<char>::empty());
            assert(gs.last().0 == text);
            assert(segment_texts(gs) =~= text);
        } else {
            assert(s.subrange(start, s.len() as int) =~= Seq::<char>::empty());
            assert(without_brackets(Seq::<char>::empty()) =~= Seq::<char>::empty()) by {
                Seq::<char>::empty().lemma_filter_len(|c: char| !is_bracket(c));
            }
        }
    } else if is_bracket(s[i]) {
        let head_text = s.subrange(start, i);
        let rest = segments_from(s, i + 1, i + 1);
        lemma_segments_from(s, i + 1, i + 1);
        assert forall|j: int| 0 <= j < head_text.len() implies !is_bracket(#[trigger] head_text[j]) by {
            assert(head_text[j] == s[start + j]);
        }
        lemma_no_brackets_kept(head_text);
        let f = |c: char| !is_bracket(c);
        assert(s.subrange(start, s.len() as int) =~= (head_text + seq![s[i]]) + s.subrange(i + 1, s.len() as int));
        Seq::filter_distributes_over_add(head_text + seq![s[i]], s.subrange(i + 1, s.len() as int), f);
        Seq::filter_distributes_over_add(head_text, seq![s[i]], f);
        Seq::<char>::empty().lemma_filter_push(s[i], f);
        Seq::<char>::empty().lemma_filter_len(f);
        assert(Seq::<char>::empty().push(s[i]) =~= seq![s[i]]);
        assert(seq![s[i]].filter(f) =~= Seq::<char>::empty());
        let tag = if is_close_bracket(s[i]) {
            (head_text, true, is_paren_close(s[i]), is_corner_close(s[i]))
        } else {
            (head_text, false, false, false)
        };
        if i > start {
            let head = seq![tag];
            assert(head.drop_last() =~= Seq::<Segment>::empty());
            assert(segment_texts(Seq::<Segment>::empty()) == Seq::<char>::empty());
            assert(head.last().0 == head_text);
            assert(segment_texts(head) =~= head_text);
            lemma_segment_texts_add(head, rest);
            assert(gs =~= head + rest);
            assert forall|k: int| 0 <= k < gs.len() implies (#[trigger] gs[k]).0.len() > 0 && forall|j: int|
                0 <= j < gs[k].0.len() ==> !is_bracket(#[trigger] gs[k].0[j]) by {
                if k > 0 {
                    assert(gs[k] == rest[k - 1]);
                }
            }
        } else {
            assert(head_text =~= Seq::<char>::empty());
            assert(gs =~= rest);
            assert(without_brackets(head_text) =~= Seq::<char>::empty());
        }
        assert(segment_texts(gs) =~= without_brackets(s.subrange(start, s.len() as int)));
    } else {
        lemma_segments_from(s, i + 1, start);
    }
}

/// Splitting a filename loses nothing but its brackets: every token's raw text is non-empty and
/// bracket-free, and the raw texts of the tokens, one after the other, are the filename without
/// its brackets.
pub proof fn law_split_raw_keeps_text(raw: Seq<char>, d: Seq<char>)
    ensures
        segment_texts(segments_from(raw, 0, 0)) == without_brackets(raw),
        split_raw_spec(raw, d).len() == segments_from(raw, 0, 0).len(),
        forall|k: int| 0 <= k < split_raw_spec(raw, d).len() ==> (#[trigger] split_raw_spec(raw, d)[k]).raw
            == segments_from(raw, 0, 0)[k].0,
        forall|k: int| 0 <= k < split_raw_spec(raw, d).len() ==> (#[trigger] split_raw_spec(raw, d)[k]).raw.len() > 0
            && forall|j: int| 0 <= j < split_raw_spec(raw, d)[k].raw.len() ==> !is_bracket(
                #[trigger] split_raw_spec(raw, d)[k].raw[j],
            ),
{
    lemma_segments_from(raw, 0, 0);
    assert(raw.subrange(0, raw.len() as int) =~= raw);
    let gs = segments_from(raw, 0, 0);
    assert forall|k: int| 0 <= k < split_raw_spec(raw, d).len() implies (#[trigger] split_raw_spec(raw, d)[k]).raw
        == gs[k].0 by {}
    assert forall|k: int| 0 <= k < split_raw_spec(raw, d).len() implies (#[trigger] split_raw_spec(raw, d)[k]).raw.len() > 0
        && forall|j: int| 0 <= j < split_raw_spec(raw, d)[k].raw.len() ==> !is_bracket(
            #[trigger] split_raw_spec(raw, d)[k].raw[j],
        ) by {
        assert(split_raw_spec(raw, d)[k].raw == gs[k].0);
        assert(gs[k].0.len() > 0);
    }
}


/// A subtoken as `split_token` makes it: non-empty, and either free of delimiters or a single
/// delimiter.
pub open spec fn piece_ok(p: Seq<char>, d: Seq<char>) -> bool {
    &&& p.len() > 0
    &&& (forall|j: int| 0 <= j < p.len() ==> !d.contains(#[trigger] p[j])) || (p.len() == 1 && d.contains(p[0]))
}

/// Pieces from position `i`, the current one starting at `seg`, are all as `piece_ok` says.
proof fn lemma_split_from_pieces(t: Seq<char>, d: Seq<char>, i: int, seg: int)
    requires
        0 <= seg <= i <= t.len(),
        forall|j: int| seg <= j < i ==> !d.contains(#[trigger] t[j]),
    ensures
        forall|k: int| 0 <= k < split_from(t, d, i, seg).len() ==> piece_ok(#[trigger] split_from(t, d, i, seg)[k], d),
    decreases t.len() - i,
{
    let ps = split_from(t, d, i, seg);
    let head_text = t.subrange(seg, i);
    assert forall|j: int| 0 <= j < head_text.len() implies !d.contains(#[trigger] head_text[j]) by {
        assert(head_text[j] == t[seg + j]);
    }
    if i > seg {
        assert(piece_ok(head_text, d));
    }
    if i >= t.len() {
        if seg < t.len() {
            assert(ps =~= seq![head_text]);
            assert(ps[0] == head_text);
            assert forall|k: int| 0 <= k < ps.len() implies piece_ok(#[trigger] ps[k], d) by {
                assert(k == 0);
            }
        } else {
            assert(ps.len() == 0);
        }
    } else if d.contains(t[i]) {
        let head = if i > seg { seq![head_text] } else { Seq::<Seq<char>>::empty() };
        if i + 2 < t.len() && d.contains(t[i + 1]) && d.contains(t[i + 2]) {
            let rest = split_from(t, d, i + 2, i + 2);
            lemma_split_from_pieces(t, d, i + 2, i + 2);
            let single = seq![t[i + 1]];
            assert(piece_ok(single, d));
            assert forall|k: int| 0 <= k < ps.len() implies piece_ok(#[trigger] ps[k], d) by {
                assert(ps == head + seq![single] + rest);
                if k < head.len() {
                    assert(ps[k] == head_text);
                } else if k == head.len() {
                    assert(ps[k] == single);
                } else {
                    assert(ps[k] == rest[k - head.len() - 1]);
                }
            }
        } else {
            let rest = split_from(t, d, i + 1, i + 1);
            lemma_split_from_pieces(t, d, i + 1, i + 1);
            assert forall|k: int| 0 <= k < ps.len() implies piece_ok(#[trigger] ps[k], d) by {
                assert(ps == head + rest);
                if k < head.len() {
                    assert(ps[k] == head_text);
                } else {
                    assert(ps[k] == rest[k - head.len()]);
                }
            }
        }
    } else {
        lemma_split_from_pieces(t, d, i + 1, seg);
        assert(ps == split_from(t, d, i + 1, seg));
    }
}

/// Every subtoken `split_token` makes is non-empty, and is either free of delimiters or a
/// single delimiter (kept where three delimiters stand in a row).
pub proof fn law_split_token_pieces(raw: Seq<char>, d: Seq<char>)
    ensures
        forall|k: int| 0 <= k < split_token_spec(raw, d).len() ==> piece_ok(#[trigger] split_token_spec(raw, d)[k], d),
{
    lemma_split_from_pieces(trimmed(raw, d), d, 0, 0);
}


/// The text `t` cut at every delimiter from position `i` on, the current piece starting at
/// `seg`, with the empty pieces dropped (what `str::split` on the delimiters gives, without its
/// empty strings).
pub open spec fn plain_from(t: Seq<char>, d: Seq<char>, i: int, seg: int) -> Seq<Seq<char>>
    decreases t.len() - i,
{
    if i >= t.len() {
        if seg < t.len() {
            seq![t.subrange(seg, t.len() as int)]
        } else {
            Seq::empty()
        }
    } else if d.contains(t[i]) {
        (if i > seg {
            seq![t.subrange(seg, i)]
        } else {
            Seq::<Seq<char>>::empty()
        }) + plain_from(t, d, i + 1, i + 1)
    } else {
        plain_from(t, d, i + 1, seg)
    }
}

/// The plain split of a raw token: trimmed of delimiters, then cut at every delimiter, with the
/// empty pieces dropped.
pub open spec fn plain_split(raw: Seq<char>, d: Seq<char>) -> Seq<Seq<char>> {
    plain_from(trimmed(raw, d), d, 0, 0)
}

/// The predicate "is not a lone delimiter".
pub open spec fn not_lone_delimiter(d: Seq<char>) -> spec_fn(Seq<char>) -> bool {
    |p: Seq<char>| !(p.len() == 1 && d.contains(p[0]))
}

/// Filtering a one-piece sequence keeps the piece exactly when the predicate holds.
proof fn lemma_filter_one(p: Seq<char>, pred: spec_fn(Seq<char>) -> bool)
    ensures
        seq![p].filter(pred) == (if pred(p) { seq![p] } else { Seq::<Seq<char>>::empty() }),
{
    let empty = Seq::<Seq<char>>::empty();
    empty.lemma_filter_len(pred);
    assert(empty.filter(pred) =~= empty);
    empty.lemma_filter_push(p, pred);
    assert(seq![p] =~= empty.push(p));
    assert(empty.push(p) =~= seq![p]);
}

/// From position `i` on, dropping the lone delimiters from the subtokens gives the plain split.
proof fn lemma_split_from_plain(t: Seq<char>, d: Seq<char>, i: int, seg: int)
    requires
        0 <= seg <= i <= t.len(),
        forall|j: int| seg <= j < i ==> !d.contains(#[trigger] t[j]),
    ensures
        split_from(t, d, i, seg).filter(not_lone_delimiter(d)) == plain_from(t, d, i, seg),
    decreases t.len() - i,
{
    let keep = not_lone_delimiter(d);
    let head_text = t.subrange(seg, i);
    let head = if i > seg { seq![head_text] } else { Seq::<Seq<char>>::empty() };
    lemma_filter_one(head_text, keep);
    if i > seg {
        assert(head_text[0] == t[seg]);
        assert(keep(head_text));
    }
    let empty = Seq::<Seq<char>>::empty();
    empty.lemma_filter_len(keep);
    assert(empty.filter(keep) =~= empty);
    assert(head.filter(keep) == head);
    if i >= t.len() {
        if seg < t.len() {
            let last = t.subrange(seg, t.len() as int);
            lemma_filter_one(last, keep);
            assert(last[0] == t[seg]);
        }
    } else if d.contains(t[i]) {
        if i + 2 < t.len() && d.contains(t[i + 1]) && d.contains(t[i + 2]) {
            let single = seq![t[i + 1]];
            let rest = split_from(t, d, i + 2, i + 2);
            lemma_split_from_plain(t, d, i + 2, i + 2);
            lemma_filter_one(single, keep);
            assert(!keep(single));
            Seq::filter_distributes_over_add(head, seq![single], keep);
            Seq::filter_distributes_over_add(head + seq![single], rest, keep);
            assert(plain_from(t, d, i + 1, i + 1) == Seq::<Seq<char>>::empty() + plain_from(t, d, i + 2, i + 2));
            assert(head + Seq::<Seq<char>>::empty() =~= head);
            assert(Seq::<Seq<char>>::empty() + plain_from(t, d, i + 2, i + 2) =~= plain_from(t, d, i + 2, i + 2));
        } else {
            lemma_split_from_plain(t, d, i + 1, i + 1);
            Seq::filter_distributes_over_add(head, split_from(t, d, i + 1, i + 1), keep);
        }
    } else {
        lemma_split_from_plain(t, d, i + 1, seg);
    }
}

/// Dropping the lone delimiters that `split_token` keeps (one stands for three delimiters in a
/// row) leaves the plain split: the trimmed token cut at every delimiter, empty pieces dropped.
pub proof fn law_split_token_plain(raw: Seq<char>, d: Seq<char>)
    ensures
        split_token_spec(raw, d).filter(not_lone_delimiter(d)) == plain_split(raw, d),
{
    lemma_split_from_plain(trimmed(raw, d), d, 0, 0);
}


/// The characters that open a bracket: `[`, `(`, `{`, `「`, `『`, `【` and the full-width `（`.
pub open spec fn opening_chars() -> Seq<char> {
    seq!['[', '(', '{', '\u{300C}', '\u{300E}', '\u{3010}', '\u{FF08}']
}

/// The characters that close a bracket: `]`, `)`, `}`, `」`, `』`, `】` and the full-width `）`.
pub open spec fn closing_chars() -> Seq<char> {
    seq![']', ')', '}', '\u{300D}', '\u{300F}', '\u{3011}', '\u{FF09}']
}

/// Up to an opening bracket at position `a.len()`, the segments of `s` are those of its prefix
/// `a`, then those after the bracket.
proof fn lemma_segments_prefix(s: Seq<char>, a: Seq<char>, i: int, start: int)
    requires
        a.len() < s.len(),
        s.subrange(0, a.len() as int) == a,
        is_open_bracket(s[a.len() as int]),
        0 <= start <= i <= a.len(),
    ensures
        segments_from(s, i, start) == segments_from(a, i, start) + segments_from(
            s,
            a.len() + 1int,
            a.len() + 1int,
        ),
    decreases a.len() - i,
{
    let m = a.len() as int;
    let rest = segments_from(s, m + 1, m + 1);
    if i == m {
        assert(s.subrange(start, m) =~= a.subrange(start, m));
        if m > start {
            assert(segments_from(a, i, start) == seq![(a.subrange(start, m), false, false, false)]);
        } else {
            assert(segments_from(a, i, start) == Seq::<Segment>::empty());
            assert(Seq::<Segment>::empty() + rest =~= rest);
        }
    } else {
        assert(s[i] == a[i]);
        assert(s.subrange(start, i) =~= a.subrange(start, i));
        if is_open_bracket(s[i]) || is_close_bracket(s[i]) {
            lemma_segments_prefix(s, a, i + 1, i + 1);
            let head = if is_open_bracket(s[i]) {
                if i > start { seq![(a.subrange(start, i), false, false, false)] } else { Seq::<Segment>::empty() }
            } else {
                if i > start {
                    seq![(a.subrange(start, i), true, is_paren_close(s[i]), is_corner_close(s[i]))]
                } else {
                    Seq::<Segment>::empty()
                }
            };
            assert(segments_from(s, i, start) == head + segments_from(s, i + 1, i + 1));
            assert(segments_from(a, i, start) == head + segments_from(a, i + 1, i + 1));
            assert(head + (segments_from(a, i + 1, i + 1) + rest) =~= (head + segments_from(a, i + 1, i + 1)) + rest);
        } else {
            lemma_segments_prefix(s, a, i + 1, start);
        }
    }
}

/// From position `k` on, the segments of `s` are those of its suffix `b`.
proof fn lemma_segments_suffix(s: Seq<char>, b: Seq<char>, k: int, i: int, start: int)
    requires
        0 <= k,
        s.len() == k + b.len(),
        s.subrange(k, s.len() as int) == b,
        0 <= start <= i <= b.len(),
    ensures
        segments_from(s, k + i, k + start) == segments_from(b, i, start),
    decreases b.len() - i,
{
    assert(s.subrange(k + start, k + i) =~= b.subrange(start, i));
    if i == b.len() {
        assert(s.subrange(k + start, s.len() as int) =~= b.subrange(start, b.len() as int));
    } else {
        assert(s[k + i] == b[i]);
        if is_open_bracket(s[k + i]) || is_close_bracket(s[k + i]) {
            lemma_segments_suffix(s, b, k, i + 1, i + 1);
        } else {
            lemma_segments_suffix(s, b, k, i + 1, start);
        }
    }
}

/// A bracket-free text `x` at position `p`, closed by a bracket at `p + x.len()`, is one enclosed
/// segment.
proof fn lemma_segments_enclosed(s: Seq<char>, x: Seq<char>, p: int, i: int)
    requires
        0 <= p,
        x.len() > 0,
        p + x.len() < s.len(),
        s.subrange(p, p + x.len()) == x,
        forall|j: int| 0 <= j < x.len() ==> !is_open_bracket(#[trigger] x[j]) && !is_close_bracket(x[j]),
        is_close_bracket(s[p + x.len()]),
        0 <= i <= x.len(),
    ensures
        segments_from(s, p + i, p) == seq![
            (x, true, is_paren_close(s[p + x.len()]), is_corner_close(s[p + x.len()])),
        ] + segments_from(s, p + x.len() + 1, p + x.len() + 1),
    decreases x.len() - i,
{
    let q = p + x.len();
    if i == x.len() {
        assert(!is_open_bracket(s[q])) by {
            assert(is_close_bracket(s[q]));
        }
    } else {
        assert(s[p + i] == x[i]);
        lemma_segments_enclosed(s, x, p, i + 1);
    }
}

/// Every character of the listed bracket set ends a token: a text `x` without brackets, enclosed
/// by an opening and a closing bracket of the set (with any text `a` before and `b` after), comes
/// back as one enclosed token holding exactly `x`, in parentheses exactly when the closing
/// bracket is `)` or `）` and in corner brackets exactly when it is `」` or `』`; the tokens
/// before it are those of `a` and the tokens after it those of `b`.
pub proof fn law_split_raw_enclosed(a: Seq<char>, o: char, x: Seq<char>, c: char, b: Seq<char>, d: Seq<char>)
    requires
        opening_chars().contains(o),
        closing_chars().contains(c),
        x.len() > 0,
        forall|j: int| 0 <= j < x.len() ==> !opening_chars().contains(#[trigger] x[j]) && !closing_chars().contains(
            x[j],
        ),
    ensures
        segments_from(a + seq![o] + x + seq![c] + b, 0, 0) == segments_from(a, 0, 0) + seq![
            (x, true, c == ')' || c == '\u{FF09}', c == '\u{300D}' || c == '\u{300F}'),
        ] + segments_from(b, 0, 0),
        split_raw_spec(a + seq![o] + x + seq![c] + b, d) == split_raw_spec(a, d) + seq![
            token_spec(x, d, true, c == ')' || c == '\u{FF09}', c == '\u{300D}' || c == '\u{300F}'),
        ] + split_raw_spec(b, d),
{
    let s = a + seq![o] + x + seq![c] + b;
    let m = a.len() as int;
    let p = m + 1;
    let q = p + x.len();
    assert(s.subrange(0, m) =~= a);
    assert(s[m] == o);
    let oi = choose|i: int| 0 <= i < opening_chars().len() && opening_chars()[i] == o;
    assert(is_open_bracket(o));
    let ci = choose|i: int| 0 <= i < closing_chars().len() && closing_chars()[i] == c;
    assert(is_close_bracket(c));
    assert(s[q] == c);
    assert(s.subrange(p, q) =~= x);
    assert forall|j: int| 0 <= j < x.len() implies !is_open_bracket(#[trigger] x[j]) && !is_close_bracket(x[j]) by {
        if is_open_bracket(x[j]) {
            assert(opening_chars().contains(x[j])) by {
                if x[j] == '[' { assert(opening_chars()[0] == x[j]); }
                else if x[j] == '(' { assert(opening_chars()[1] == x[j]); }
                else if x[j] == '{' { assert(opening_chars()[2] == x[j]); }
                else if x[j] == '\u{300C}' { assert(opening_chars()[3] == x[j]); }
                else if x[j] == '\u{300E}' { assert(opening_chars()[4] == x[j]); }
                else if x[j] == '\u{3010}' { assert(opening_chars()[5] == x[j]); }
                else { assert(opening_chars()[6] == x[j]); }
            }
        }
        if is_close_bracket(x[j]) {
            assert(closing_chars().contains(x[j])) by {
                if x[j] == ']' { assert(closing_chars()[0] == x[j]); }
                else if x[j] == ')' { assert(closing_chars()[1] == x[j]); }
                else if x[j] == '}' { assert(closing_chars()[2] == x[j]); }
                else if x[j] == '\u{300D}' { assert(closing_chars()[3] == x[j]); }
                else if x[j] == '\u{300F}' { assert(closing_chars()[4] == x[j]); }
                else if x[j] == '\u{3011}' { assert(closing_chars()[5] == x[j]); }
                else { assert(closing_chars()[6] == x[j]); }
            }
        }
    }
    lemma_segments_prefix(s, a, 0, 0);
    lemma_segments_enclosed(s, x, p, 0);
    assert(s.subrange(q + 1, s.len() as int) =~= b);
    lemma_segments_suffix(s, b, q + 1, 0, 0);
    let g: Segment = (x, true, c == ')' || c == '\u{FF09}', c == '\u{300D}' || c == '\u{300F}');
    assert(is_paren_close(c) == (c == ')' || c == '\u{FF09}'));
    assert(is_corner_close(c) == (c == '\u{300D}' || c == '\u{300F}'));
    assert(segments_from(s, 0, 0) == segments_from(a, 0, 0) + (seq![g] + segments_from(b, 0, 0)));
    assert(segments_from(a, 0, 0) + (seq![g] + segments_from(b, 0, 0)) =~= segments_from(a, 0, 0) + seq![g]
        + segments_from(b, 0, 0));
    let f = |h: Segment| token_spec(h.0, d, h.1, h.2, h.3);
    assert((segments_from(a, 0, 0) + seq![g] + segments_from(b, 0, 0)).map_values(f) =~= segments_from(a, 0, 0).map_values(
        f,
    ) + seq![f(g)] + segments_from(b, 0, 0).map_values(f));
}

/// Segment `g` of `s` ends at position `e`: its text stands right before `e`, and it is enclosed
/// (in parentheses, in corner brackets) exactly when a closing bracket (a closing parenthesis, a
/// closing corner bracket) stands at `e`.
pub open spec fn ends_at(s: Seq<char>, g: Segment, e: int) -> bool {
    &&& g.0.len() <= e <= s.len()
    &&& s.subrange(e - g.0.len(), e) == g.0
    &&& g.1 == (e < s.len() && is_close_bracket(s[e]))
    &&& g.2 == (e < s.len() && is_paren_close(s[e]))
    &&& g.3 == (e < s.len() && is_corner_close(s[e]))
}

/// Segment `g` of `s` ends at some position, as `ends_at` says.
pub open spec fn ends_somewhere(s: Seq<char>, g: Segment) -> bool {
    exists|e: int| ends_at(s, g, e)
}

/// Every segment from position `i` on ends somewhere as `ends_at` says.
proof fn lemma_segments_end(s: Seq<char>, i: int, start: int)
    requires
        0 <= start <= i <= s.len(),
    ensures
        forall|k: int| 0 <= k < segments_from(s, i, start).len() ==> #[trigger] ends_somewhere(
            s,
            segments_from(s, i, start)[k],
        ),
    decreases s.len() - i,
{
    let gs = segments_from(s, i, start);
    if i >= s.len() {
        if s.len() > start {
            let g: Segment = (s.subrange(start, s.len() as int), false, false, false);
            assert(gs =~= seq![g]);
            assert(ends_at(s, g, s.len() as int));
            assert forall|k: int| 0 <= k < gs.len() implies #[trigger] ends_somewhere(s, gs[k]) by {
                assert(gs[k] == g);
            }
        }
    } else if is_open_bracket(s[i]) || is_close_bracket(s[i]) {
        let rest = segments_from(s, i + 1, i + 1);
        lemma_segments_end(s, i + 1, i + 1);
        let g: Segment = if is_open_bracket(s[i]) {
            (s.subrange(start, i), false, false, false)
        } else {
            (s.subrange(start, i), true, is_paren_close(s[i]), is_corner_close(s[i]))
        };
        let head = if i > start { seq![g] } else { Seq::<Segment>::empty() };
        assert(gs == head + rest);
        if i > start {
            assert(ends_at(s, g, i));
        }
        assert forall|k: int| 0 <= k < gs.len() implies #[trigger] ends_somewhere(s, gs[k]) by {
            if k < head.len() {
                assert(gs[k] == g);
            } else {
                assert(gs[k] == rest[k - head.len()]);
            }
        }
    } else {
        lemma_segments_end(s, i + 1, start);
        assert(gs == segments_from(s, i + 1, start));
    }
}

/// The flags of a token, with its raw text, as a segment.
pub open spec fn token_segment(t: crate::token::main_token::TokenView) -> Segment {
    (t.raw, t.inside, t.paren, t.corner)
}

/// Every token of a split filename ends at a place of the filename that sets its flags: its raw
/// text stands right before that place, and the token is enclosed (in parentheses, in corner
/// brackets) exactly when a closing bracket (a closing parenthesis, a closing corner bracket)
/// stands there. So a token in parentheses or corner brackets is enclosed, and never both.
pub proof fn law_split_raw_flags(raw: Seq<char>, d: Seq<char>)
    ensures
        forall|k: int| 0 <= k < split_raw_spec(raw, d).len() ==> ends_somewhere(
            raw,
            token_segment(#[trigger] split_raw_spec(raw, d)[k]),
        ),
        forall|k: int| 0 <= k < split_raw_spec(raw, d).len() ==> ((#[trigger] split_raw_spec(raw, d)[k]).paren
            || split_raw_spec(raw, d)[k].corner) ==> split_raw_spec(raw, d)[k].inside,
        forall|k: int| 0 <= k < split_raw_spec(raw, d).len() ==> !((#[trigger] split_raw_spec(raw, d)[k]).paren
            && split_raw_spec(raw, d)[k].corner),
{
    let gs = segments_from(raw, 0, 0);
    let ts = split_raw_spec(raw, d);
    lemma_segments_end(raw, 0, 0);
    assert forall|k: int| 0 <= k < ts.len() implies ends_somewhere(raw, token_segment(#[trigger] ts[k])) && ((
    ts[k].paren || ts[k].corner) ==> ts[k].inside) && !(ts[k].paren && ts[k].corner) by {
        assert(token_segment(ts[k]) == gs[k]);
        assert(ends_somewhere(raw, gs[k]));
        let e = choose|e: int| ends_at(raw, gs[k], e);
        assert(ends_at(raw, gs[k], e));
    }
}

} // verus!
