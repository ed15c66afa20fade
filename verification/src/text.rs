//! Character and string helpers shared by the parsing passes.
use vstd::prelude::*;

verus! {

// ---------------------------------------------------------------------------
// Character classes
// ---------------------------------------------------------------------------

/// An ASCII decimal digit.
pub open spec fn is_ascii_digit(c: char) -> bool {
    '0' <= c && c <= '9'
}

/// An ASCII hexadecimal digit.
pub open spec fn is_ascii_hex(c: char) -> bool {
    ||| is_ascii_digit(c)
    ||| ('a' <= c && c <= 'f')
    ||| ('A' <= c && c <= 'F')
}

/// An ASCII letter.
pub open spec fn is_ascii_alpha(c: char) -> bool {
    ('a' <= c && c <= 'z') || ('A' <= c && c <= 'Z')
}

/// Every character of `s` is an ASCII digit (true of the empty sequence).
pub open spec fn only_ascii_digits(s: Seq<char>) -> bool {
    forall|i: int| 0 <= i < s.len() ==> is_ascii_digit(#[trigger] s[i])
}

pub fn ascii_digit(c: char) -> (r: bool)
    ensures
        r == is_ascii_digit(c),
{
    '0' <= c && c <= '9'
}

pub fn ascii_hex(c: char) -> (r: bool)
    ensures
        r == is_ascii_hex(c),
{
    ('0' <= c && c <= '9') || ('a' <= c && c <= 'f') || ('A' <= c && c <= 'F')
}

pub fn ascii_alpha(c: char) -> (r: bool)
    ensures
        r == is_ascii_alpha(c),
{
    ('a' <= c && c <= 'z') || ('A' <= c && c <= 'Z')
}

/// Whether every character of `s` is an ASCII digit.
pub fn all_ascii_digits(s: &Vec<char>) -> (r: bool)
    ensures
        r == only_ascii_digits(s@),
{
    let n = s.len();
    let mut i: usize = 0;
    while i < n
        invariant
            n == s@.len(),
            0 <= i <= n,
            forall|j: int| 0 <= j < i ==> is_ascii_digit(#[trigger] s@[j]),
        decreases n - i,
    {
        if !ascii_digit(s[i]) {
            return false;
        }
        i = i + 1;
    }
    true
}

/// An ASCII character.
pub open spec fn is_ascii_char(c: char) -> bool {
    (c as u32) < 0x80
}

/// An ASCII upper-case letter.
pub open spec fn is_ascii_upper(c: char) -> bool {
    'A' <= c && c <= 'Z'
}

/// What `char::is_alphabetic` answers for a character (the Unicode `Alphabetic` property).
pub uninterp spec fn alphabetic(c: char) -> bool;

/// What `char::is_numeric` answers for a character (Unicode general categories `Nd`, `Nl`, `No`).
pub uninterp spec fn numeric(c: char) -> bool;

/// What `char::is_uppercase` answers for a character (the Unicode `Uppercase` property).
pub uninterp spec fn uppercase(c: char) -> bool;

/// Calls `char::is_alphabetic`; the result is named `alphabetic(c)`, a fixed Unicode property.
/// Among ASCII characters, the letters are exactly the alphabetic ones.
#[verifier::external_body]
pub(crate) fn is_alphabetic(c: char) -> (r: bool)
    ensures
        r == alphabetic(c),
        is_ascii_char(c) ==> (r == is_ascii_alpha(c)),
{
    c.is_alphabetic()
}

/// Calls `char::is_numeric`; the result is named `numeric(c)`, a fixed Unicode property.
/// Among ASCII characters, the digits are exactly the numeric ones.
#[verifier::external_body]
pub(crate) fn is_numeric(c: char) -> (r: bool)
    ensures
        r == numeric(c),
        is_ascii_char(c) ==> (r == is_ascii_digit(c)),
{
    c.is_numeric()
}

/// Calls `char::is_uppercase`; the result is named `uppercase(c)`, a fixed Unicode property.
/// Among ASCII characters, the letters `A` to `Z` are exactly the upper-case ones.
#[verifier::external_body]
pub(crate) fn is_uppercase(c: char) -> (r: bool)
    ensures
        r == uppercase(c),
        is_ascii_char(c) ==> (r == is_ascii_upper(c)),
{
    c.is_uppercase()
}

/// The Unicode `White_Space` property, which `char::is_whitespace` answers: tab through carriage
/// return, space, next line, no-break space, ogham space mark, the spaces U+2000 to U+200A, the
/// line and paragraph separators, narrow no-break space, medium mathematical space and
/// ideographic space.
pub open spec fn whitespace(c: char) -> bool {
    ||| ('\u{9}' <= c && c <= '\u{d}')
    ||| c == ' '
    ||| c == '\u{85}'
    ||| c == '\u{a0}'
    ||| c == '\u{1680}'
    ||| ('\u{2000}' <= c && c <= '\u{200a}')
    ||| c == '\u{2028}'
    ||| c == '\u{2029}'
    ||| c == '\u{202f}'
    ||| c == '\u{205f}'
    ||| c == '\u{3000}'
}

/// Whether `c` is whitespace (what `char::is_whitespace` answers).
pub fn is_whitespace(c: char) -> (r: bool)
    ensures
        r == whitespace(c),
{
    ('\u{9}' <= c && c <= '\u{d}') || c == ' ' || c == '\u{85}' || c == '\u{a0}' || c == '\u{1680}' || ('\u{2000}' <= c
        && c <= '\u{200a}') || c == '\u{2028}' || c == '\u{2029}' || c == '\u{202f}' || c == '\u{205f}' || c
        == '\u{3000}'
}

/// `char::is_alphanumeric` is documented as `is_alphabetic() || is_numeric()`.
pub open spec fn alphanumeric(c: char) -> bool {
    alphabetic(c) || numeric(c)
}

pub fn is_alphanumeric(c: char) -> (r: bool)
    ensures
        r == alphanumeric(c),
{
    is_alphabetic(c) || is_numeric(c)
}

// ---------------------------------------------------------------------------
// Case mapping
// ---------------------------------------------------------------------------

/// What `str::to_uppercase` returns for a text (full Unicode case mapping).
pub uninterp spec fn upper_of(s: Seq<char>) -> Seq<char>;

/// What `str::to_lowercase` returns for a text (full Unicode case mapping).
pub uninterp spec fn lower_of(s: Seq<char>) -> Seq<char>;

/// Every character of `s` is ASCII.
pub open spec fn all_ascii(s: Seq<char>) -> bool {
    forall|i: int| 0 <= i < s.len() ==> is_ascii_char(#[trigger] s[i])
}

/// The ASCII upper case of a character: `a` to `z` become `A` to `Z`, the rest stays.
pub open spec fn ascii_upper_char(c: char) -> char {
    if 'a' <= c && c <= 'z' {
        ((c as u32) - 32) as char
    } else {
        c
    }
}

/// The ASCII lower case of a character: `A` to `Z` become `a` to `z`, the rest stays.
pub open spec fn ascii_lower_char(c: char) -> char {
    if 'A' <= c && c <= 'Z' {
        ((c as u32) + 32) as char
    } else {
        c
    }
}

/// Calls `str::to_uppercase`; the result is named `upper_of(s@)`. On an ASCII text the mapping is
/// the ASCII one, character by character.
#[verifier::external_body]
pub(crate) fn to_upper(s: &str) -> (r: String)
    ensures
        r@ == upper_of(s@),
        all_ascii(s@) ==> r@ == s@.map_values(|c: char| ascii_upper_char(c)),
{
    s.to_uppercase()
}

/// Calls `str::to_lowercase`; the result is named `lower_of(s@)`. On an ASCII text the mapping is
/// the ASCII one, character by character.
#[verifier::external_body]
pub(crate) fn to_lower(s: &str) -> (r: String)
    ensures
        r@ == lower_of(s@),
        all_ascii(s@) ==> r@ == s@.map_values(|c: char| ascii_lower_char(c)),
{
    s.to_lowercase()
}

// ---------------------------------------------------------------------------
// Building strings
// ---------------------------------------------------------------------------

/// Calls `String::push`, which appends one character.
#[verifier::external_body]
pub(crate) fn push_char(s: &mut String, c: char)
    ensures
        final(s)@ == old(s)@.push(c),
{
    s.push(c)
}

/// A `String` holding the given characters.
pub fn string_of(cs: &Vec<char>) -> (r: String)
    ensures
        r@ == cs@,
{
    let mut r = String::new();
    let n = cs.len();
    let mut i: usize = 0;
    while i < n
        invariant
            n == cs@.len(),
            0 <= i <= n,
            r@ == cs@.take(i as int),
        decreases n - i,
    {
        push_char(&mut r, cs[i]);
        assert(cs@.take(i + 1) =~= cs@.take(i as int).push(cs@[i as int]));
        i = i + 1;
    }
    assert(cs@.take(n as int) =~= cs@);
    r
}

/// The characters of a string slice.
pub fn chars_of(s: &str) -> (r: Vec<char>)
    ensures
        r@ == s@,
{
    let mut r: Vec<char> = Vec::new();
    for c in it: s.chars()
        invariant
            r@ == it.seq().take(it.index() as int),
    {
        r.push(c);
    }
    r
}

/// The characters `from..to` of `s`.
pub fn slice_of(s: &Vec<char>, from: usize, to: usize) -> (r: Vec<char>)
    requires
        from <= to <= s@.len(),
    ensures
        r@ == s@.subrange(from as int, to as int),
{
    let mut r: Vec<char> = Vec::new();
    let mut i = from;
    while i < to
        invariant
            from <= i <= to <= s@.len(),
            r@ == s@.subrange(from as int, i as int),
        decreases to - i,
    {
        r.push(s[i]);
        assert(s@.subrange(from as int, i + 1) =~= s@.subrange(from as int, i as int).push(s@[i as int]));
        i = i + 1;
    }
    r
}

/// `a` followed by `b`.
pub fn concat(a: &Vec<char>, b: &Vec<char>) -> (r: Vec<char>)
    ensures
        r@ == a@ + b@,
{
    let mut r = slice_of(a, 0, a.len());
    let n = b.len();
    let mut i: usize = 0;
    while i < n
        invariant
            n == b@.len(),
            0 <= i <= n,
            r@ == a@ + b@.take(i as int),
        decreases n - i,
    {
        r.push(b[i]);
        assert(a@ + b@.take(i + 1) =~= (a@ + b@.take(i as int)).push(b@[i as int]));
        i = i + 1;
    }
    assert(b@.take(n as int) =~= b@);
    assert(a@.subrange(0, a@.len() as int) =~= a@);
    r
}

/// `a`, the character `c`, then `b`.
pub fn join3(a: &Vec<char>, c: char, b: &Vec<char>) -> (r: Vec<char>)
    ensures
        r@ == a@.push(c) + b@,
{
    let mut x = slice_of(a, 0, a.len());
    assert(a@.subrange(0, a@.len() as int) =~= a@);
    x.push(c);
    concat(&x, b)
}

// ---------------------------------------------------------------------------
// Comparing and searching
// ---------------------------------------------------------------------------

/// Whether two character vectors are equal.
pub fn seq_eq(x: &Vec<char>, y: &Vec<char>) -> (r: bool)
    ensures
        r == (x@ == y@),
{
    if x.len() != y.len() {
        return false;
    }
    let n = x.len();
    let mut i: usize = 0;
    while i < n
        invariant
            n == x@.len(),
            n == y@.len(),
            0 <= i <= n,
            forall|j: int| 0 <= j < i ==> x@[j] == y@[j],
        decreases n - i,
    {
        if x[i] != y[i] {
            return false;
        }
        i = i + 1;
    }
    assert(x@ =~= y@);
    true
}

/// Whether two string slices hold the same characters.
pub fn str_eq(a: &str, b: &str) -> (r: bool)
    ensures
        r == (a@ == b@),
{
    let x = chars_of(a);
    let y = chars_of(b);
    seq_eq(&x, &y)
}

/// Whether `c` is one of the characters of `d`.
pub fn char_in(d: &[char], c: char) -> (r: bool)
    ensures
        r == d@.contains(c),
{
    let n = d.len();
    let mut i: usize = 0;
    while i < n
        invariant
            n == d@.len(),
            0 <= i <= n,
            forall|j: int| 0 <= j < i ==> d@[j] != c,
        decreases n - i,
    {
        if d[i] == c {
            assert(d@[i as int] == c);
            return true;
        }
        i = i + 1;
    }
    false
}

/// `needle` occurs in `hay` at position `i`.
pub open spec fn occurs_at(hay: Seq<char>, needle: Seq<char>, i: int) -> bool {
    &&& 0 <= i
    &&& i + needle.len() <= hay.len()
    &&& hay.subrange(i, i + needle.len()) == needle
}

/// `needle` occurs somewhere in `hay` (always true of the empty needle).
pub open spec fn occurs_in(hay: Seq<char>, needle: Seq<char>) -> bool {
    exists|i: int| occurs_at(hay, needle, i)
}

/// Whether `needle` occurs in `hay` at position `i`.
pub fn matches_at(hay: &Vec<char>, needle: &Vec<char>, i: usize) -> (r: bool)
    ensures
        r == occurs_at(hay@, needle@, i as int),
{
    if i > hay.len() || needle.len() > hay.len() - i {
        return false;
    }
    let n = needle.len();
    let mut k: usize = 0;
    while k < n
        invariant
            n == needle@.len(),
            i + n <= hay.len(),
            0 <= k <= n,
            forall|j: int| 0 <= j < k ==> hay@[i + j] == needle@[j],
        decreases n - k,
    {
        if hay[i + k] != needle[k] {
            assert(hay@.subrange(i as int, i + n)[k as int] != needle@[k as int]);
            return false;
        }
        k = k + 1;
    }
    assert(hay@.subrange(i as int, i + n) =~= needle@);
    true
}

/// Whether `needle` occurs in `hay`.
pub fn contains_seq(hay: &Vec<char>, needle: &Vec<char>) -> (r: bool)
    ensures
        r == occurs_in(hay@, needle@),
{
    if needle.len() > hay.len() {
        assert(!occurs_in(hay@, needle@));
        return false;
    }
    let last = hay.len() - needle.len();
    let mut i: usize = 0;
    loop
        invariant
            last == hay@.len() - needle@.len(),
            0 <= i <= last,
            forall|j: int| 0 <= j < i ==> !occurs_at(hay@, needle@, j),
        ensures
            forall|j: int| 0 <= j <= last ==> !occurs_at(hay@, needle@, j),
        decreases last - i,
    {
        if matches_at(hay, needle, i) {
            return true;
        }
        if i == last {
            break;
        }
        i = i + 1;
    }
    assert(!occurs_in(hay@, needle@)) by {
        if occurs_in(hay@, needle@) {
            let j = choose|j: int| occurs_at(hay@, needle@, j);
            assert(!occurs_at(hay@, needle@, j));
        }
    }
    false
}

// ---------------------------------------------------------------------------
// Byte lengths
// ---------------------------------------------------------------------------

/// The number of bytes of `c` in UTF-8.
pub open spec fn char_width(c: char) -> nat {
    if (c as u32) < 0x80 {
        1
    } else if (c as u32) < 0x800 {
        2
    } else if (c as u32) < 0x10000 {
        3
    } else {
        4
    }
}

/// The number of bytes of `s` in UTF-8 (what `str::len` answers).
pub open spec fn utf8_len(s: Seq<char>) -> nat
    decreases s.len(),
{
    if s.len() == 0 {
        0
    } else {
        utf8_len(s.drop_last()) + char_width(s.last())
    }
}

/// The UTF-8 length of `s`, or `cap + 1` when it is longer than `cap` bytes.
pub fn utf8_len_capped(s: &Vec<char>, cap: usize) -> (r: usize)
    requires
        cap < 0x1_0000,
    ensures
        r == if utf8_len(s@) <= cap { utf8_len(s@) } else { (cap + 1) as nat },
{
    let n = s.len();
    let mut total: usize = 0;
    let mut i: usize = 0;
    while i < n
        invariant
            n == s@.len(),
            0 <= i <= n,
            cap < 0x1_0000,
            total == utf8_len(s@.take(i as int)),
            total <= cap,
        decreases n - i,
    {
        let c = s[i];
        let w: usize = if (c as u32) < 0x80 { 1 } else if (c as u32) < 0x800 { 2 } else if (c as u32) < 0x10000 { 3 } else { 4 };
        assert(s@.take(i + 1).drop_last() =~= s@.take(i as int));
        total = total + w;
        if total > cap {
            proof {
                lemma_utf8_len_prefix(s@, i + 1);
            }
            return cap + 1;
        }
        i = i + 1;
    }
    assert(s@.take(n as int) =~= s@);
    total
}

/// The UTF-8 length of `s` (what `str::len` answers for the text).
pub fn utf8_len_of(s: &Vec<char>) -> (r: u128)
    ensures
        r == utf8_len(s@),
{
    let n = s.len();
    let mut total: u128 = 0;
    let mut i: usize = 0;
    while i < n
        invariant
            n == s@.len(),
            0 <= i <= n,
            total == utf8_len(s@.take(i as int)),
            total <= 4 * i,
        decreases n - i,
    {
        let c = s[i];
        let w: u128 = if (c as u32) < 0x80 { 1 } else if (c as u32) < 0x800 { 2 } else if (c as u32) < 0x10000 { 3 } else { 4 };
        assert(s@.take(i + 1).drop_last() =~= s@.take(i as int));
        total = total + w;
        i = i + 1;
    }
    assert(s@.take(n as int) =~= s@);
    total
}

/// A prefix is no longer in UTF-8 than the whole.
pub proof fn lemma_utf8_len_prefix(s: Seq<char>, k: int)
    requires
        0 <= k <= s.len(),
    ensures
        utf8_len(s.take(k)) <= utf8_len(s),
    decreases s.len(),
{
    if k < s.len() {
        assert(s.drop_last().take(k) =~= s.take(k));
        lemma_utf8_len_prefix(s.drop_last(), k);
    } else {
        assert(s.take(k) =~= s);
    }
}

// ---------------------------------------------------------------------------
// Segments
// ---------------------------------------------------------------------------

/// The part of `s` after its last `sep` (all of `s` when there is none).
pub open spec fn last_segment(s: Seq<char>, sep: char) -> Seq<char>
    decreases s.len(),
{
    if s.len() == 0 {
        s
    } else if s.last() == sep {
        Seq::empty()
    } else {
        last_segment(s.drop_last(), sep).push(s.last())
    }
}

/// The part of `s` before its first `sep` (all of `s` when there is none).
pub open spec fn first_segment(s: Seq<char>, sep: char) -> Seq<char>
    decreases s.len(),
{
    if s.len() == 0 {
        s
    } else if s[0] == sep {
        Seq::empty()
    } else {
        seq![s[0]] + first_segment(s.drop_first(), sep)
    }
}

/// The part of `s` after its last `sep`.
pub fn last_segment_of(s: &Vec<char>, sep: char) -> (r: Vec<char>)
    ensures
        r@ == last_segment(s@, sep),
{
    let n = s.len();
    let mut k = n;
    assert(s@.take(n as int) =~= s@);
    assert(s@.subrange(n as int, n as int) =~= Seq::<char>::empty());
    assert(last_segment(s@, sep) + Seq::<char>::empty() =~= last_segment(s@, sep));
    while k > 0 && s[k - 1] != sep
        invariant
            n == s@.len(),
            0 <= k <= n,
            last_segment(s@, sep) == last_segment(s@.take(k as int), sep) + s@.subrange(k as int, n as int),
        decreases k,
    {
        assert(s@.take(k as int).drop_last() =~= s@.take(k - 1));
        assert(s@.subrange(k - 1, n as int) =~= seq![s@[k - 1]] + s@.subrange(k as int, n as int));
        assert(last_segment(s@.take(k as int), sep) == last_segment(s@.take(k - 1), sep).push(s@[k - 1]));
        assert(last_segment(s@.take(k - 1), sep).push(s@[k - 1]) + s@.subrange(k as int, n as int)
            =~= last_segment(s@.take(k - 1), sep) + s@.subrange(k - 1, n as int));
        k = k - 1;
    }
    proof {
        if k == 0 {
            assert(s@.take(0) =~= Seq::<char>::empty());
        }
        assert(last_segment(s@.take(k as int), sep) =~= Seq::<char>::empty());
    }
    assert(last_segment(s@, sep) =~= s@.subrange(k as int, n as int));
    slice_of(s, k, n)
}

/// The part of `s` before its first `sep`.
pub fn first_segment_of(s: &Vec<char>, sep: char) -> (r: Vec<char>)
    ensures
        r@ == first_segment(s@, sep),
{
    let n = s.len();
    let mut k: usize = 0;
    assert(s@.subrange(0, n as int) =~= s@);
    while k < n && s[k] != sep
        invariant
            n == s@.len(),
            0 <= k <= n,
            first_segment(s@, sep) == s@.take(k as int) + first_segment(s@.subrange(k as int, n as int), sep),
        decreases n - k,
    {
        assert(s@.subrange(k as int, n as int).drop_first() =~= s@.subrange(k + 1, n as int));
        assert(s@.take(k + 1) =~= s@.take(k as int) + seq![s@[k as int]]);
        k = k + 1;
    }
    assert(first_segment(s@.subrange(k as int, n as int), sep) =~= Seq::<char>::empty());
    assert(s@.take(k as int) + Seq::<char>::empty() =~= s@.take(k as int));
    slice_of(s, 0, k)
}

/// `s` without its leading whitespace (`str::trim_start`).
pub open spec fn trim_start_ws(s: Seq<char>) -> Seq<char>
    decreases s.len(),
{
    if s.len() > 0 && whitespace(s[0]) {
        trim_start_ws(s.drop_first())
    } else {
        s
    }
}

/// `s` without its leading whitespace.
pub fn trim_start_whitespace(s: &Vec<char>) -> (r: Vec<char>)
    ensures
        r@ == trim_start_ws(s@),
{
    let n = s.len();
    let mut i: usize = 0;
    assert(s@.subrange(0, n as int) =~= s@);
    while i < n && is_whitespace(s[i])
        invariant
            n == s@.len(),
            0 <= i <= n,
            trim_start_ws(s@) == trim_start_ws(s@.subrange(i as int, n as int)),
        decreases n - i,
    {
        assert(s@.subrange(i as int, n as int).drop_first() =~= s@.subrange(i + 1, n as int));
        i = i + 1;
    }
    slice_of(s, i, n)
}

/// `s` without its trailing whitespace.
pub open spec fn trim_end_ws(s: Seq<char>) -> Seq<char>
    decreases s.len(),
{
    if s.len() > 0 && whitespace(s.last()) {
        trim_end_ws(s.drop_last())
    } else {
        s
    }
}

/// `s` without leading and trailing whitespace (`str::trim`).
pub open spec fn trim_ws(s: Seq<char>) -> Seq<char> {
    trim_end_ws(trim_start_ws(s))
}

/// `s` without its trailing whitespace.
pub fn trim_end_whitespace(s: &Vec<char>) -> (r: Vec<char>)
    ensures
        r@ == trim_end_ws(s@),
{
    let n = s.len();
    let mut j = n;
    assert(s@.subrange(0, n as int) =~= s@);
    while j > 0 && is_whitespace(s[j - 1])
        invariant
            n == s@.len(),
            0 <= j <= n,
            trim_end_ws(s@) == trim_end_ws(s@.subrange(0, j as int)),
        decreases j,
    {
        assert(s@.subrange(0, j as int).drop_last() =~= s@.subrange(0, j - 1));
        j = j - 1;
    }
    slice_of(s, 0, j)
}

/// `s` without leading and trailing whitespace.
pub fn trim_whitespace(s: &Vec<char>) -> (r: Vec<char>)
    ensures
        r@ == trim_ws(s@),
{
    let t = trim_start_whitespace(s);
    trim_end_whitespace(&t)
}

/// Some character of `s` is alphanumeric.
pub open spec fn any_alphanumeric(s: Seq<char>) -> bool {
    exists|i: int| 0 <= i < s.len() && alphanumeric(#[trigger] s[i])
}

/// Some character of `s` is alphabetic.
pub open spec fn any_alphabetic(s: Seq<char>) -> bool {
    exists|i: int| 0 <= i < s.len() && alphabetic(#[trigger] s[i])
}

/// Every character of `s` is alphabetic.
pub open spec fn all_alphabetic(s: Seq<char>) -> bool {
    forall|i: int| 0 <= i < s.len() ==> alphabetic(#[trigger] s[i])
}

/// Whether some character of `s` is alphanumeric.
pub fn has_alphanumeric(s: &Vec<char>) -> (r: bool)
    ensures
        r == any_alphanumeric(s@),
{
    let n = s.len();
    let mut i: usize = 0;
    while i < n
        invariant
            n == s@.len(),
            0 <= i <= n,
            forall|j: int| 0 <= j < i ==> !alphanumeric(#[trigger] s@[j]),
        decreases n - i,
    {
        if is_alphanumeric(s[i]) {
            assert(alphanumeric(s@[i as int]));
            return true;
        }
        i = i + 1;
    }
    false
}

/// Whether some character of `s` is alphabetic.
pub fn has_alphabetic(s: &Vec<char>) -> (r: bool)
    ensures
        r == any_alphabetic(s@),
{
    let n = s.len();
    let mut i: usize = 0;
    while i < n
        invariant
            n == s@.len(),
            0 <= i <= n,
            forall|j: int| 0 <= j < i ==> !alphabetic(#[trigger] s@[j]),
        decreases n - i,
    {
        if is_alphabetic(s[i]) {
            assert(alphabetic(s@[i as int]));
            return true;
        }
        i = i + 1;
    }
    false
}

/// Whether every character of `s` is alphabetic.
pub fn only_alphabetic(s: &Vec<char>) -> (r: bool)
    ensures
        r == all_alphabetic(s@),
{
    let n = s.len();
    let mut i: usize = 0;
    while i < n
        invariant
            n == s@.len(),
            0 <= i <= n,
            forall|j: int| 0 <= j < i ==> alphabetic(#[trigger] s@[j]),
        decreases n - i,
    {
        if !is_alphabetic(s[i]) {
            assert(!alphabetic(s@[i as int]));
            return false;
        }
        i = i + 1;
    }
    true
}

/// Appends the characters of `b` to `a`.
pub fn extend(a: &mut Vec<char>, b: &Vec<char>)
    ensures
        final(a)@ == old(a)@ + b@,
{
    let n = b.len();
    let mut i: usize = 0;
    while i < n
        invariant
            n == b@.len(),
            0 <= i <= n,
            a@ == old(a)@ + b@.take(i as int),
        decreases n - i,
    {
        a.push(b[i]);
        assert(old(a)@ + b@.take(i + 1) =~= (old(a)@ + b@.take(i as int)).push(b@[i as int]));
        i = i + 1;
    }
    assert(b@.take(n as int) =~= b@);
}

/// Whether `p` is a prefix of `s`.
pub fn starts_with(s: &Vec<char>, p: &Vec<char>) -> (r: bool)
    ensures
        r == (p@.len() <= s@.len() && s@.subrange(0, p@.len() as int) == p@),
{
    let r = matches_at(s, p, 0);
    r
}

// ---------------------------------------------------------------------------
// Trimming
// ---------------------------------------------------------------------------

/// `s` without its leading characters that belong to `d`.
pub open spec fn trim_start(s: Seq<char>, d: Seq<char>) -> Seq<char>
    decreases s.len(),
{
    if s.len() > 0 && d.contains(s[0]) {
        trim_start(s.drop_first(), d)
    } else {
        s
    }
}

/// `s` without its trailing characters that belong to `d`.
pub open spec fn trim_end(s: Seq<char>, d: Seq<char>) -> Seq<char>
    decreases s.len(),
{
    if s.len() > 0 && d.contains(s.last()) {
        trim_end(s.drop_last(), d)
    } else {
        s
    }
}

/// `s` without leading and trailing characters that belong to `d` (`str::trim_matches`).
pub open spec fn trimmed(s: Seq<char>, d: Seq<char>) -> Seq<char> {
    trim_end(trim_start(s, d), d)
}

/// Trimming the start never lengthens a text.
pub proof fn lemma_trim_start_len(s: Seq<char>, d: Seq<char>)
    ensures
        trim_start(s, d).len() <= s.len(),
    decreases s.len(),
{
    if s.len() > 0 {
        lemma_trim_start_len(s.drop_first(), d);
    }
}

/// Trimming the end never lengthens a text.
pub proof fn lemma_trim_end_len(s: Seq<char>, d: Seq<char>)
    ensures
        trim_end(s, d).len() <= s.len(),
    decreases s.len(),
{
    if s.len() > 0 {
        lemma_trim_end_len(s.drop_last(), d);
    }
}

/// Trimming never lengthens a text.
pub proof fn lemma_trim_len(s: Seq<char>, d: Seq<char>)
    ensures
        trimmed(s, d).len() <= s.len(),
{
    lemma_trim_start_len(s, d);
    lemma_trim_end_len(trim_start(s, d), d);
}

/// Position of the first character of `s` that is not in `d` (or `s.len()`).
pub fn trim_start_index(s: &Vec<char>, d: &[char]) -> (r: usize)
    ensures
        r <= s@.len(),
        trim_start(s@, d@) == s@.subrange(r as int, s@.len() as int),
{
    let n = s.len();
    let mut i: usize = 0;
    assert(s@.subrange(0, n as int) =~= s@);
    while i < n && char_in(d, s[i])
        invariant
            n == s@.len(),
            0 <= i <= n,
            trim_start(s@, d@) == trim_start(s@.subrange(i as int, n as int), d@),
        decreases n - i,
    {
        assert(s@.subrange(i as int, n as int).drop_first() =~= s@.subrange(i + 1, n as int));
        i = i + 1;
    }
    i
}

/// One past the last character of `s[..to]` that is not in `d` (or `from` when there is none
/// at or after `from`).
pub fn trim_end_index(s: &Vec<char>, from: usize, to: usize, d: &[char]) -> (r: usize)
    requires
        from <= to <= s@.len(),
    ensures
        from <= r <= to,
        trim_end(s@.subrange(from as int, to as int), d@) == s@.subrange(from as int, r as int),
{
    let mut j = to;
    while j > from && char_in(d, s[j - 1])
        invariant
            from <= j <= to <= s@.len(),
            trim_end(s@.subrange(from as int, to as int), d@) == trim_end(s@.subrange(from as int, j as int), d@),
        decreases j,
    {
        assert(s@.subrange(from as int, j as int).drop_last() =~= s@.subrange(from as int, j - 1));
        j = j - 1;
    }
    j
}

/// `s` trimmed of the characters of `d` on both ends.
pub fn trim_chars(s: &Vec<char>, d: &[char]) -> (r: Vec<char>)
    ensures
        r@ == trimmed(s@, d@),
{
    let a = trim_start_index(s, d);
    let b = trim_end_index(s, a, s.len(), d);
    slice_of(s, a, b)
}

} // verus!
