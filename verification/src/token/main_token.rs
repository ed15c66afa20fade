//! Top-level token produced by the filename splitter.
use vstd::prelude::*;

use crate::parsing::number::{digit_spec, is_digit};
use crate::split::{split_token, split_token_spec};
use crate::token::subtoken::{SubToken, SubTokenCategory, SubTokenView};

verus! {

/// The mathematical value of a token.
pub struct TokenView {
    /// Its subtokens, in order.
    pub subs: Seq<SubTokenView>,
    /// The raw text the token was made from.
    pub raw: Seq<char>,
    /// Whether the token was enclosed in brackets.
    pub inside: bool,
    /// Whether the token was a parenthesised segment holding a single subtoken.
    pub weak: bool,
    /// Whether the token was enclosed in parentheses.
    pub paren: bool,
    /// Whether the token was enclosed in Japanese corner brackets.
    pub corner: bool,
}

/// The subtoken views of a vector of subtokens.
pub open spec fn subs_view(v: Seq<SubToken>) -> Seq<SubTokenView> {
    v.map_values(|s: SubToken| s@)
}

/// The unclassified subtokens made of the given texts.
pub open spec fn fresh_subs(texts: Seq<Seq<char>>) -> Seq<SubTokenView> {
    texts.map_values(|t: Seq<char>| (t, SubTokenCategory::Unknow))
}

/// The token `Token::new` makes of a raw text.
pub open spec fn token_spec(raw: Seq<char>, d: Seq<char>, inside: bool, paren: bool, corner: bool) -> TokenView {
    let texts = split_token_spec(raw, d);
    TokenView {
        subs: fresh_subs(texts),
        raw: raw,
        inside: inside,
        weak: paren && texts.len() == 1,
        paren: paren,
        corner: corner,
    }
}

/// Some subtoken of `t` is still unclassified.
pub open spec fn has_unknown(t: TokenView) -> bool {
    exists|i: int| 0 <= i < t.subs.len() && (#[trigger] t.subs[i]).1 == SubTokenCategory::Unknow
}

/// `b` is `a`, possibly newly classified as found.
pub open spec fn sub_marked(a: SubTokenView, b: SubTokenView) -> bool {
    b.0 == a.0 && (b.1 == a.1 || b.1 == SubTokenCategory::Found)
}

/// Subtokens `b` are subtokens `a`, some of them possibly newly classified as found.
pub open spec fn subs_marked(a: Seq<SubTokenView>, b: Seq<SubTokenView>) -> bool {
    a.len() == b.len() && forall|i: int| 0 <= i < a.len() ==> sub_marked(#[trigger] a[i], b[i])
}

/// Token `b` is token `a`, some subtokens possibly newly classified as found.
pub open spec fn token_marked(a: TokenView, b: TokenView) -> bool {
    &&& b.raw == a.raw
    &&& b.inside == a.inside
    &&& b.weak == a.weak
    &&& b.paren == a.paren
    &&& b.corner == a.corner
    &&& subs_marked(a.subs, b.subs)
}

/// Tokens `b` are tokens `a`, some subtokens possibly newly classified as found.
pub open spec fn tokens_marked(a: Seq<TokenView>, b: Seq<TokenView>) -> bool {
    a.len() == b.len() && forall|i: int| 0 <= i < a.len() ==> token_marked(#[trigger] a[i], b[i])
}

/// The views of a vector of tokens.
pub open spec fn tokens_view(v: Seq<Token>) -> Seq<TokenView> {
    v.map_values(|t: Token| t@)
}

/// Marking found is reflexive and transitive.
pub proof fn lemma_tokens_marked_trans(a: Seq<TokenView>, b: Seq<TokenView>, c: Seq<TokenView>)
    requires
        tokens_marked(a, b),
        tokens_marked(b, c),
    ensures
        tokens_marked(a, c),
{
    assert forall|i: int| 0 <= i < a.len() implies token_marked(#[trigger] a[i], c[i]) by {
        assert(token_marked(b[i], c[i]));
        assert forall|j: int| 0 <= j < a[i].subs.len() implies sub_marked(#[trigger] a[i].subs[j], c[i].subs[j]) by {
            assert(sub_marked(b[i].subs[j], c[i].subs[j]));
        }
    }
}

/// Marking found is reflexive.
pub proof fn lemma_tokens_marked_refl(a: Seq<TokenView>)
    ensures
        tokens_marked(a, a),
{
    assert forall|i: int| 0 <= i < a.len() implies token_marked(#[trigger] a[i], a[i]) by {
        assert forall|j: int| 0 <= j < a[i].subs.len() implies sub_marked(#[trigger] a[i].subs[j], a[i].subs[j]) by {}
    }
}

/// Token marking is transitive.
pub proof fn lemma_token_marked_trans(a: TokenView, b: TokenView, c: TokenView)
    requires
        token_marked(a, b),
        token_marked(b, c),
    ensures
        token_marked(a, c),
{
    lemma_subs_marked_trans(a.subs, b.subs, c.subs);
}

/// Token marking is reflexive.
pub proof fn lemma_token_marked_refl(a: TokenView)
    ensures
        token_marked(a, a),
{
    assert forall|j: int| 0 <= j < a.subs.len() implies sub_marked(#[trigger] a.subs[j], a.subs[j]) by {}
}

/// Subtoken marking is transitive.
pub proof fn lemma_subs_marked_trans(a: Seq<SubTokenView>, b: Seq<SubTokenView>, c: Seq<SubTokenView>)
    requires
        subs_marked(a, b),
        subs_marked(b, c),
    ensures
        subs_marked(a, c),
{
    assert forall|j: int| 0 <= j < a.len() implies sub_marked(#[trigger] a[j], c[j]) by {
        assert(sub_marked(b[j], c[j]));
    }
}

/// Token `t` with subtoken `si` classified as found.
pub open spec fn mark_token(t: TokenView, si: int) -> TokenView {
    TokenView { subs: t.subs.update(si, (t.subs[si].0, SubTokenCategory::Found)), ..t }
}

/// Tokens `ts` with subtoken `si` of token `ti` classified as found.
pub open spec fn mark_tokens(ts: Seq<TokenView>, ti: int, si: int) -> Seq<TokenView> {
    ts.update(ti, mark_token(ts[ti], si))
}

/// Token `t` with subtokens `from..to` classified as found.
pub open spec fn mark_range(t: TokenView, from: int, to: int) -> TokenView {
    TokenView {
        subs: Seq::new(
            t.subs.len(),
            |i: int|
                if from <= i < to {
                    (t.subs[i].0, SubTokenCategory::Found)
                } else {
                    t.subs[i]
                },
        ),
        ..t
    }
}

/// Marking one more subtoken extends a marked range.
pub proof fn lemma_mark_range_step(t: TokenView, from: int, k: int)
    requires
        0 <= from <= k < t.subs.len(),
    ensures
        mark_token(mark_range(t, from, k), k) == mark_range(t, from, k + 1),
{
    assert(mark_token(mark_range(t, from, k), k).subs =~= mark_range(t, from, k + 1).subs);
}

/// An empty marked range changes nothing.
pub proof fn lemma_mark_range_empty(t: TokenView, from: int)
    ensures
        mark_range(t, from, from) == t,
{
    assert(mark_range(t, from, from).subs =~= t.subs);
}

/// Every subtoken of `t` is unclassified.
pub open spec fn all_unknown(t: TokenView) -> bool {
    forall|i: int| 0 <= i < t.subs.len() ==> (#[trigger] t.subs[i]).1 == SubTokenCategory::Unknow
}

/// A segment of the filename, optionally enclosed in brackets, holding a list of [`SubToken`]s.
#[derive(Debug, Clone, PartialEq, Eq)]
pub struct Token {
    tokens: Vec<SubToken>,
    raw_token: String,
    inside_delimiter: bool,
    weak_delimiter: bool,
    paren_delimiter: bool,
    japanese_corner: bool,
}

impl View for Token {
    type V = TokenView;

    closed spec fn view(&self) -> TokenView {
        TokenView {
            subs: subs_view(self.tokens@),
            raw: self.raw_token@,
            inside: self.inside_delimiter,
            weak: self.weak_delimiter,
            paren: self.paren_delimiter,
            corner: self.japanese_corner,
        }
    }
}

impl Token {
    /// Creates a token by splitting `raw` into subtokens on the given delimiters.
    pub fn new(raw: &str, delimiter: &[char], in_delimiter: bool, is_weak: bool, is_corner: bool) -> (r: Token)
        ensures
            r@ == token_spec(raw@, delimiter@, in_delimiter, is_weak, is_corner),
    {
        let pieces = split_token(raw, delimiter);
        let ghost texts = pieces@.map_values(|s: String| s@);
        let mut all_tokens: Vec<SubToken> = Vec::new();
        let n = pieces.len();
        let mut i: usize = 0;
        while i < n
            invariant
                n == pieces@.len(),
                texts == pieces@.map_values(|s: String| s@),
                0 <= i <= n,
                subs_view(all_tokens@) == fresh_subs(texts.take(i as int)),
            decreases n - i,
        {
            let ghost before = all_tokens@;
            let st = SubToken::new(pieces[i].as_str());
            assert(texts[i as int] == pieces@[i as int]@);
            assert(st@ == (texts[i as int], SubTokenCategory::Unknow));
            all_tokens.push(st);
            assert(subs_view(all_tokens@) =~= subs_view(before).push(st@));
            assert(texts.take(i + 1) =~= texts.take(i as int).push(texts[i as int]));
            assert(fresh_subs(texts.take(i + 1)) =~= fresh_subs(texts.take(i as int)).push((texts[i as int], SubTokenCategory::Unknow)));
            i = i + 1;
        }
        assert(texts.take(n as int) =~= texts);
        let single = all_tokens.len() == 1;
        Token {
            weak_delimiter: is_weak && single,
            paren_delimiter: is_weak,
            japanese_corner: is_corner,
            tokens: all_tokens,
            raw_token: raw.to_owned(),
            inside_delimiter: in_delimiter,
        }
    }

    /// Returns `true` if at least one subtoken is still unclassified.
    pub fn contains_unknow(&self) -> (r: bool)
        ensures
            r == has_unknown(self@),
    {
        let n = self.tokens.len();
        let mut i: usize = 0;
        while i < n
            invariant
                n == self@.subs.len(),
                0 <= i <= n,
                forall|j: int| 0 <= j < i ==> (#[trigger] self@.subs[j]).1 != SubTokenCategory::Unknow,
            decreases n - i,
        {
            if self.tokens[i].is_category(SubTokenCategory::Unknow) {
                assert(self@.subs[i as int].1 == SubTokenCategory::Unknow);
                return true;
            }
            assert(self@.subs[i as int] == self.tokens@[i as int]@);
            i = i + 1;
        }
        false
    }

    /// Returns `true` if every subtoken is still unclassified.
    pub fn is_full_unknow(&self) -> (r: bool)
        ensures
            r == all_unknown(self@),
    {
        let n = self.tokens.len();
        let mut i: usize = 0;
        while i < n
            invariant
                n == self@.subs.len(),
                0 <= i <= n,
                forall|j: int| 0 <= j < i ==> (#[trigger] self@.subs[j]).1 == SubTokenCategory::Unknow,
            decreases n - i,
        {
            assert(self@.subs[i as int] == self.tokens@[i as int]@);
            if !self.tokens[i].is_category(SubTokenCategory::Unknow) {
                return false;
            }
            i = i + 1;
        }
        true
    }

    /// Returns `true` if this token is a single unclassified digit string.
    pub fn is_isolated_number(&self) -> (r: bool)
        ensures
            r == (self@.subs.len() == 1 && digit_spec(self@.subs[0].0) && self@.subs[0].1 != SubTokenCategory::Found),
    {
        if self.tokens.len() != 1 {
            return false;
        }
        assert(self@.subs[0] == self.tokens@[0]@);
        is_digit(self.tokens[0].value()) && !self.tokens[0].is_category(SubTokenCategory::Found)
    }

    /// Returns a mutable reference to the list of subtokens.
    pub fn sub_tokens(&mut self) -> (r: &mut Vec<SubToken>)
        ensures
            subs_view(r@) == old(self)@.subs,
            final(self)@ == (TokenView { subs: subs_view(final(r)@), ..old(self)@ }),
    {
        &mut self.tokens
    }

    /// The subtokens, read only.
    pub fn subs(&self) -> (r: &Vec<SubToken>)
        ensures
            subs_view(r@) == self@.subs,
    {
        &self.tokens
    }

    /// Classifies subtoken `i` as found.
    pub fn mark_found(&mut self, i: usize)
        requires
            i < old(self)@.subs.len(),
        ensures
            final(self)@ == (TokenView { subs: old(self)@.subs.update(i as int, (old(self)@.subs[i as int].0, SubTokenCategory::Found)), ..old(self)@ }),
            token_marked(old(self)@, final(self)@),
    {
        let ghost before = self.tokens@;
        self.tokens[i].set_category(SubTokenCategory::Found);
        assert(subs_view(self.tokens@) =~= subs_view(before).update(i as int, (subs_view(before)[i as int].0, SubTokenCategory::Found)));
    }

    /// The text of subtoken `i`.
    pub fn sub_value(&self, i: usize) -> (r: &str)
        requires
            i < self@.subs.len(),
        ensures
            r@ == self@.subs[i as int].0,
    {
        self.tokens[i].value()
    }

    /// Whether subtoken `i` has category `c`.
    pub fn sub_is(&self, i: usize, c: SubTokenCategory) -> (r: bool)
        requires
            i < self@.subs.len(),
        ensures
            r == (self@.subs[i as int].1 == c),
    {
        self.tokens[i].is_category(c)
    }

    /// Number of subtokens.
    pub fn len(&self) -> (r: usize)
        ensures
            r == self@.subs.len(),
    {
        self.tokens.len()
    }

    /// Returns a reference to the raw token string.
    pub fn raw_token(&self) -> (r: &str)
        ensures
            r@ == self@.raw,
    {
        self.raw_token.as_str()
    }

    /// Returns `true` if this token was enclosed in square or curly brackets.
    pub fn is_inside_delimiter(&self) -> (r: bool)
        ensures
            r == self@.inside,
    {
        self.inside_delimiter
    }

    /// Returns `true` if this token contains a single subtoken with a weak (parenthesised) delimiter.
    pub fn is_weak(&self) -> (r: bool)
        ensures
            r == self@.weak,
    {
        self.weak_delimiter
    }

    /// Returns `true` if this token was enclosed in parentheses.
    pub fn is_paren(&self) -> (r: bool)
        ensures
            r == self@.paren,
    {
        self.paren_delimiter
    }

    /// Returns `true` if this token was enclosed in Japanese corner brackets (`「」`).
    pub fn is_japanese_corner(&self) -> (r: bool)
        ensures
            r == self@.corner,
    {
        self.japanese_corner
    }
}

/// Classifies subtoken `si` of token `ti` as found.
pub fn mark_sub(tokens: &mut Vec<Token>, ti: usize, si: usize)
    requires
        ti < old(tokens)@.len(),
        si < old(tokens)@[ti as int]@.subs.len(),
    ensures
        tokens_view(final(tokens)@) == mark_tokens(tokens_view(old(tokens)@), ti as int, si as int),
        tokens_marked(tokens_view(old(tokens)@), tokens_view(final(tokens)@)),
        final(tokens)@.len() == old(tokens)@.len(),
        final(tokens)@[ti as int]@.subs[si as int].1 == SubTokenCategory::Found,
        final(tokens)@[ti as int]@.subs.len() == old(tokens)@[ti as int]@.subs.len(),
        token_marked(old(tokens)@[ti as int]@, final(tokens)@[ti as int]@),
        forall|j: int| 0 <= j < old(tokens)@.len() && j != ti ==> final(tokens)@[j] == old(tokens)@[j],
        forall|k: int| 0 <= k < old(tokens)@[ti as int]@.subs.len() && k != si ==>
            final(tokens)@[ti as int]@.subs[k] == old(tokens)@[ti as int]@.subs[k],
{
    let ghost before = tokens@;
    tokens[ti].mark_found(si);
    assert(tokens_view(tokens@) =~= mark_tokens(tokens_view(before), ti as int, si as int));
    proof {
        assert forall|i: int| 0 <= i < before.len() implies token_marked(#[trigger] tokens_view(before)[i], tokens_view(tokens@)[i]) by {
            if i != ti {
                assert(tokens@[i] == before[i]);
                assert forall|j: int| 0 <= j < before[i]@.subs.len() implies sub_marked(#[trigger] before[i]@.subs[j], before[i]@.subs[j]) by {}
            }
        }
    }
}

/// Classifies every subtoken of token `ti` as found.
pub fn mark_all(tokens: &mut Vec<Token>, ti: usize)
    requires
        ti < old(tokens)@.len(),
    ensures
        tokens_view(final(tokens)@) == tokens_view(old(tokens)@).update(
            ti as int,
            mark_range(old(tokens)@[ti as int]@, 0, old(tokens)@[ti as int]@.subs.len() as int),
        ),
        tokens_marked(tokens_view(old(tokens)@), tokens_view(final(tokens)@)),
        final(tokens)@.len() == old(tokens)@.len(),
        forall|k: int| 0 <= k < final(tokens)@[ti as int]@.subs.len() ==>
            (#[trigger] final(tokens)@[ti as int]@.subs[k]).1 == SubTokenCategory::Found,
        forall|j: int| 0 <= j < old(tokens)@.len() && j != ti ==> final(tokens)@[j] == old(tokens)@[j],
{
    let n = tokens[ti].len();
    let mut k: usize = 0;
    let ghost t0 = tokens@[ti as int]@;
    proof {
        lemma_tokens_marked_refl(tokens_view(tokens@));
        lemma_mark_range_empty(t0, 0);
        assert(tokens_view(tokens@) =~= tokens_view(old(tokens)@).update(ti as int, mark_range(t0, 0, 0)));
    }
    while k < n
        invariant
            ti < tokens@.len(),
            tokens@.len() == old(tokens)@.len(),
            n == tokens@[ti as int]@.subs.len(),
            0 <= k <= n,
            tokens_marked(tokens_view(old(tokens)@), tokens_view(tokens@)),
            forall|j: int| 0 <= j < k ==> (#[trigger] tokens@[ti as int]@.subs[j]).1 == SubTokenCategory::Found,
            forall|j: int| 0 <= j < old(tokens)@.len() && j != ti ==> tokens@[j] == old(tokens)@[j],
            t0 == old(tokens)@[ti as int]@,
            n == t0.subs.len(),
            tokens_view(tokens@) == tokens_view(old(tokens)@).update(ti as int, mark_range(t0, 0, k as int)),
        decreases n - k,
    {
        let ghost before = tokens@;
        mark_sub(tokens, ti, k);
        proof {
            lemma_tokens_marked_trans(tokens_view(old(tokens)@), tokens_view(before), tokens_view(tokens@));
            lemma_mark_range_step(t0, 0, k as int);
            assert(tokens_view(tokens@) =~= tokens_view(old(tokens)@).update(ti as int, mark_range(t0, 0, k + 1)));
        }
        k = k + 1;
    }
}

} // verus!
