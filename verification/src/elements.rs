//! Public types returned by the parser: categories, single elements and the element collection.
use vstd::prelude::*;

verus! {

/// Category of a parsed element.
#[derive(Debug, Clone, Copy, PartialEq, Eq, Hash, Structural)]
pub enum Category {
    /// Season number (e.g. `2` in `S2E04`).
    AnimeSeason,
    /// Keyword preceding the season number (e.g. `S`, `Season`).
    AnimeSeasonPrefix,
    /// Main title of the series.
    AnimeTitle,
    /// Release type (e.g. `OVA`, `ONA`, `Movie`).
    AnimeType,
    /// Production year of the series.
    AnimeYear,
    /// Audio encoding or format (e.g. `FLAC`, `AAC`, `5.1`).
    AudioTerm,
    /// Device compatibility tag (e.g. `PS3`, `Xbox`).
    DeviceCompatibility,
    /// Episode number(s).
    EpisodeNumber,
    /// Alternative episode number (e.g. absolute number alongside season episode).
    EpisodeNumberAlt,
    /// Keyword preceding the episode number (e.g. `EP`, `Episode`).
    EpisodePrefix,
    /// Title of the individual episode.
    EpisodeTitle,
    /// CRC32 checksum (e.g. `[1234ABCD]`).
    FileChecksum,
    /// File extension (e.g. `mkv`, `mp4`).
    FileExtension,
    /// The full filename as given, always present in the result.
    FileName,
    /// Audio or subtitle language (e.g. `ENG`, `JPN`).
    Language,
    /// Miscellaneous tag not covered by other categories.
    Other,
    /// Fansub or release group name.
    ReleaseGroup,
    /// Additional release information (e.g. `REPACK`, `BATCH`).
    ReleaseInformation,
    /// Release version suffix (e.g. `v2`, `v3`).
    ReleaseVersion,
    /// Source media (e.g. `Blu-ray`, `WEB-DL`, `HDTV`).
    Source,
    /// Subtitle type or language (e.g. `Sub`, `VOSTFR`, `Dual Audio`).
    Subtitles,
    /// Video resolution (e.g. `1080p`, `720p`, `1920x1080`).
    VideoResolution,
    /// Video encoding or format (e.g. `H.264`, `10bit`, `HEVC`).
    VideoTerm,
    /// Volume number (for manga-based or multi-volume releases).
    VolumeNumber,
    /// Keyword preceding the volume number (e.g. `Vol.`, `Volume`).
    VolumePrefix,
    /// Unrecognised token; not normally present in final results.
    Unknown,
}

impl Category {
    /// The categories that may hold several values at once.
    pub open spec fn multi_valued(self) -> bool {
        ||| self is AnimeSeason
        ||| self is AnimeType
        ||| self is AudioTerm
        ||| self is DeviceCompatibility
        ||| self is Language
        ||| self is Other
        ||| self is ReleaseInformation
        ||| self is Source
        ||| self is VideoTerm
    }

    /// The categories that the keyword table is consulted for.
    pub open spec fn searchable(self) -> bool {
        ||| self is AnimeSeasonPrefix
        ||| self is AnimeType
        ||| self is AudioTerm
        ||| self is DeviceCompatibility
        ||| self is EpisodePrefix
        ||| self is FileChecksum
        ||| self is Language
        ||| self is Other
        ||| self is ReleaseGroup
        ||| self is ReleaseInformation
        ||| self is ReleaseVersion
        ||| self is Source
        ||| self is Subtitles
        ||| self is VideoResolution
        ||| self is VideoTerm
        ||| self is VolumePrefix
    }

    /// Returns `true` if this category can hold only one value (e.g. `AnimeTitle`, `EpisodeNumber`).
    pub fn is_singular(&self) -> (r: bool)
        ensures
            r == !self.multi_valued(),
    {
        match self {
            Category::AnimeSeason | Category::AnimeType | Category::AudioTerm
            | Category::DeviceCompatibility | Category::Language
            | Category::Other | Category::ReleaseInformation | Category::Source
            | Category::VideoTerm => false,
            _ => true,
        }
    }

    /// Returns `true` if this category is looked up in the keyword manager during parsing.
    pub fn is_searchable(&self) -> (r: bool)
        ensures
            r == self.searchable(),
    {
        match self {
            Category::AnimeSeasonPrefix | Category::AnimeType | Category::AudioTerm
            | Category::DeviceCompatibility | Category::EpisodePrefix | Category::FileChecksum
            | Category::Language | Category::Other | Category::ReleaseGroup
            | Category::ReleaseInformation | Category::ReleaseVersion | Category::Source
            | Category::Subtitles | Category::VideoResolution | Category::VideoTerm
            | Category::VolumePrefix => true,
            _ => false,
        }
    }
}

/// A single extracted value with its associated category.
#[derive(Debug, Clone, PartialEq, Eq)]
pub struct Element {
    /// The category this element belongs to.
    pub category: Category,
    /// The extracted string value.
    pub value: String,
}

/// The mathematical value of an element: its category and its text.
pub type ElementView = (Category, Seq<char>);

impl View for Element {
    type V = ElementView;

    open spec fn view(&self) -> ElementView {
        (self.category, self.value@)
    }
}

impl Element {
    /// Creates a new element with the given category and value.
    pub fn new(c: Category, v: &str) -> (r: Element)
        ensures
            r@ == (c, v@),
    {
        Element { category: c, value: v.to_owned() }
    }

    /// A copy of this element with the same category and text.
    pub fn duplicate(&self) -> (r: Element)
        ensures
            r@ == self@,
    {
        Element { category: self.category, value: self.value.clone() }
    }
}

/// The elements of `s` whose category is `c`, in order.
pub open spec fn of_category(s: Seq<ElementView>, c: Category) -> Seq<ElementView> {
    s.filter(is_of(c))
}

/// The predicate "has category `c`".
pub open spec fn is_of(c: Category) -> spec_fn(ElementView) -> bool {
    |e: ElementView| e.0 == c
}

/// `s` holds an element of category `c`.
pub open spec fn has_category(s: Seq<ElementView>, c: Category) -> bool {
    exists|i: int| 0 <= i < s.len() && (#[trigger] s[i]).0 == c
}

/// `i` is the position of the first element of category `c` in `s`.
pub open spec fn is_first_of(s: Seq<ElementView>, c: Category, i: int) -> bool {
    &&& 0 <= i < s.len()
    &&& s[i].0 == c
    &&& forall|j: int| 0 <= j < i ==> (#[trigger] s[j]).0 != c
}

/// The first element of category `c` in `s`, if any.
pub open spec fn first_of(s: Seq<ElementView>, c: Category) -> Option<ElementView>
    decreases s.len(),
{
    if s.len() == 0 {
        None
    } else if s[0].0 == c {
        Some(s[0])
    } else {
        first_of(s.drop_first(), c)
    }
}

/// `s` with its first element of category `c` taken out (unchanged when there is none).
pub open spec fn without_first_of(s: Seq<ElementView>, c: Category) -> Seq<ElementView>
    decreases s.len(),
{
    if s.len() == 0 {
        s
    } else if s[0].0 == c {
        s.drop_first()
    } else {
        seq![s[0]] + without_first_of(s.drop_first(), c)
    }
}

/// Two collections are equal as the collection's `==` sees them: same size, and each
/// element of the first occurs in the second.
pub open spec fn same_size_and_contained(a: Seq<ElementView>, b: Seq<ElementView>) -> bool {
    &&& a.len() == b.len()
    &&& forall|i: int| 0 <= i < a.len() ==> b.contains(#[trigger] a[i])
}

/// `new` is `old` with elements appended.
pub open spec fn grows(old: Seq<ElementView>, new: Seq<ElementView>) -> bool {
    old.len() <= new.len() && new.subrange(0, old.len() as int) == old
}

/// `new` is `old` with elements of category `c` appended.
pub open spec fn grows_with(old: Seq<ElementView>, new: Seq<ElementView>, c: Category) -> bool {
    &&& grows(old, new)
    &&& forall|i: int| old.len() <= i < new.len() ==> (#[trigger] new[i]).0 == c
}

/// Appending is transitive.
pub proof fn lemma_grows_trans(a: Seq<ElementView>, b: Seq<ElementView>, c: Seq<ElementView>)
    requires
        grows(a, b),
        grows(b, c),
    ensures
        grows(a, c),
{
    assert(c.subrange(0, a.len() as int) =~= b.subrange(0, a.len() as int));
}

/// Pushing appends.
pub proof fn lemma_grows_push(a: Seq<ElementView>, b: Seq<ElementView>, x: ElementView)
    requires
        grows(a, b),
    ensures
        grows(a, b.push(x)),
{
    assert(b.push(x).subrange(0, a.len() as int) =~= b.subrange(0, a.len() as int));
}

/// Appending is reflexive.
pub proof fn lemma_grows_refl(a: Seq<ElementView>)
    ensures
        grows(a, a),
        forall|c: Category| grows_with(a, a, c),
{
    assert(a.subrange(0, a.len() as int) =~= a);
}

/// Appending a sequence of elements extends the collection.
pub proof fn lemma_grows_append(a: Seq<ElementView>, x: Seq<ElementView>)
    ensures
        grows(a, a + x),
{
    assert((a + x).subrange(0, a.len() as int) =~= a);
}

/// Appending elements of one category is transitive.
pub proof fn lemma_grows_with_trans(a: Seq<ElementView>, b: Seq<ElementView>, c: Seq<ElementView>, k: Category)
    requires
        grows_with(a, b, k),
        grows_with(b, c, k),
    ensures
        grows_with(a, c, k),
{
    lemma_grows_trans(a, b, c);
    assert forall|i: int| a.len() <= i < c.len() implies (#[trigger] c[i]).0 == k by {
        if i < b.len() {
            assert(c[i] == c.subrange(0, b.len() as int)[i]);
        }
    }
}

/// Collection of all elements extracted from a filename.
#[derive(Debug, Clone)]
pub struct Elements {
    elements: Vec<Element>,
}

impl View for Elements {
    type V = Seq<ElementView>;

    closed spec fn view(&self) -> Seq<ElementView> {
        self.elements@.map_values(|e: Element| e@)
    }
}


/// Facts tying the recursive `first_of` to first positions.
pub proof fn lemma_first_of(s: Seq<ElementView>, c: Category)
    ensures
        first_of(s, c) is None <==> !has_category(s, c),
        forall|i: int| is_first_of(s, c, i) ==> first_of(s, c) == Some(s[i]),
    decreases s.len(),
{
    if s.len() > 0 {
        lemma_first_of(s.drop_first(), c);
        if s[0].0 != c {
            assert forall|i: int| is_first_of(s, c, i) implies first_of(s, c) == Some(s[i]) by {
                assert(is_first_of(s.drop_first(), c, i - 1)) by {
                    assert forall|j: int| 0 <= j < i - 1 implies (#[trigger] s.drop_first()[j]).0 != c by {
                        assert(s[j + 1].0 != c);
                    }
                }
            }
            if has_category(s, c) {
                let i = choose|i: int| 0 <= i < s.len() && (#[trigger] s[i]).0 == c;
                assert(s.drop_first()[i - 1].0 == c);
            }
            if has_category(s.drop_first(), c) {
                let i = choose|i: int| 0 <= i < s.drop_first().len() && (#[trigger] s.drop_first()[i]).0 == c;
                assert(s[i + 1].0 == c);
            }
        } else {
            assert(s[0].0 == c);
        }
    }
}

/// Taking out the first element of category `c`, found at `i`, is removing position `i`.
pub proof fn lemma_without_first_of(s: Seq<ElementView>, c: Category, i: int)
    requires
        is_first_of(s, c, i),
    ensures
        without_first_of(s, c) == s.remove(i),
    decreases s.len(),
{
    if i == 0 {
        assert(s.drop_first() =~= s.remove(0));
    } else {
        assert(s[0].0 != c);
        assert(is_first_of(s.drop_first(), c, i - 1)) by {
            assert forall|j: int| 0 <= j < i - 1 implies (#[trigger] s.drop_first()[j]).0 != c by {
                assert(s[j + 1].0 != c);
            }
        }
        lemma_without_first_of(s.drop_first(), c, i - 1);
        assert(seq![s[0]] + s.drop_first().remove(i - 1) =~= s.remove(i));
    }
}

/// When `s` holds an element of category `c`, the first one is somewhere.
pub proof fn lemma_first_index(s: Seq<ElementView>, c: Category) -> (i: int)
    requires
        has_category(s, c),
    ensures
        is_first_of(s, c, i),
    decreases s.len(),
{
    if s[0].0 == c {
        0
    } else {
        assert(has_category(s.drop_first(), c)) by {
            let j = choose|j: int| 0 <= j < s.len() && (#[trigger] s[j]).0 == c;
            assert(s.drop_first()[j - 1].0 == c);
        }
        let k = lemma_first_index(s.drop_first(), c);
        assert forall|j: int| 0 <= j < k + 1 implies (#[trigger] s[j]).0 != c by {
            if j > 0 {
                assert(s[j] == s.drop_first()[j - 1]);
            }
        }
        k + 1
    }
}

/// Taking out the first element of a category that a prefix lacks keeps the prefix.
pub proof fn lemma_grows_without_first(p: Seq<ElementView>, s: Seq<ElementView>, c: Category)
    requires
        grows(p, s),
        !has_category(p, c),
    ensures
        grows(p, without_first_of(s, c)),
{
    if has_category(s, c) {
        let i = lemma_first_index(s, c);
        lemma_without_first_of(s, c, i);
        if i < p.len() {
            assert(p[i] == s.subrange(0, p.len() as int)[i]);
            assert(p[i].0 == c);
        }
        assert(s.remove(i).subrange(0, p.len() as int) =~= p);
    } else {
        lemma_without_first_of_absent(s, c);
    }
}

/// Without an element of category `c`, `without_first_of` changes nothing.
pub proof fn lemma_without_first_of_absent(s: Seq<ElementView>, c: Category)
    requires
        !has_category(s, c),
    ensures
        without_first_of(s, c) == s,
    decreases s.len(),
{
    if s.len() > 0 {
        assert(s[0].0 != c);
        assert(!has_category(s.drop_first(), c)) by {
            if has_category(s.drop_first(), c) {
                let i = choose|i: int| 0 <= i < s.drop_first().len() && (#[trigger] s.drop_first()[i]).0 == c;
                assert(s[i + 1].0 == c);
            }
        }
        lemma_without_first_of_absent(s.drop_first(), c);
        assert(seq![s[0]] + s.drop_first() =~= s);
    }
}

/// No element of `s` has category `c`.
pub open spec fn none_of(s: Seq<ElementView>, c: Category) -> bool {
    forall|i: int| 0 <= i < s.len() ==> (#[trigger] s[i]).0 != c
}

/// A sequence without elements of category `c` has none to give.
pub proof fn lemma_of_category_none(s: Seq<ElementView>, c: Category)
    requires
        none_of(s, c),
    ensures
        of_category(s, c) == Seq::<ElementView>::empty(),
{
    law_category_empty(s, c);
    assert(!has_category(s, c));
    assert(of_category(s, c) =~= Seq::<ElementView>::empty());
}

/// Appending elements of other categories keeps the elements of category `c`.
pub proof fn lemma_of_category_append(e: Seq<ElementView>, s: Seq<ElementView>, c: Category)
    requires
        none_of(s, c),
    ensures
        of_category(e + s, c) == of_category(e, c),
{
    Seq::filter_distributes_over_add(e, s, is_of(c));
    lemma_of_category_none(s, c);
    assert(of_category(e, c) + Seq::<ElementView>::empty() =~= of_category(e, c));
}

/// Appending an element of another category keeps the elements of category `c`.
pub proof fn lemma_of_category_push(e: Seq<ElementView>, x: ElementView, c: Category)
    requires
        x.0 != c,
    ensures
        of_category(e.push(x), c) == of_category(e, c),
{
    e.lemma_filter_push(x, is_of(c));
}

/// Taking out the first element of another category keeps the elements of category `c`.
pub proof fn lemma_of_category_without_first(s: Seq<ElementView>, k: Category, c: Category)
    requires
        k != c,
    ensures
        of_category(without_first_of(s, k), c) == of_category(s, c),
    decreases s.len(),
{
    if s.len() > 0 {
        let head = seq![s[0]];
        assert(s =~= head + s.drop_first());
        Seq::filter_distributes_over_add(head, s.drop_first(), is_of(c));
        if s[0].0 == k {
            assert(none_of(head, c));
            lemma_of_category_none(head, c);
            assert(Seq::<ElementView>::empty() + of_category(s.drop_first(), c) =~= of_category(s.drop_first(), c));
        } else {
            lemma_of_category_without_first(s.drop_first(), k, c);
            Seq::filter_distributes_over_add(head, without_first_of(s.drop_first(), k), is_of(c));
        }
    }
}

/// Appending elements of category `k` keeps the elements of any other category.
pub proof fn lemma_of_category_grows_with(a: Seq<ElementView>, b: Seq<ElementView>, k: Category, c: Category)
    requires
        grows_with(a, b, k),
        k != c,
    ensures
        of_category(b, c) == of_category(a, c),
{
    let s = b.subrange(a.len() as int, b.len() as int);
    assert(b =~= a + s);
    assert forall|i: int| 0 <= i < s.len() implies (#[trigger] s[i]).0 != c by {
        assert(s[i] == b[a.len() + i]);
    }
    lemma_of_category_append(a, s, c);
}

// ── Laws of the collection ───────────────────────────────────────────────────

/// After `push`, the pushed element is contained and the collection is one larger.
pub proof fn law_push_then_contains(e: Seq<ElementView>, c: Category, v: Seq<char>)
    ensures
        e.push((c, v)).contains((c, v)),
        e.push((c, v)).len() == e.len() + 1,
{
    assert(e.push((c, v))[e.len() as int] == (c, v));
}

/// After `push`, `find` on the pushed category gives the pushed value when the category had no
/// element yet, and the element it gave before otherwise; `find` on any other category is
/// unchanged.
pub proof fn law_push_then_find(e: Seq<ElementView>, c: Category, v: Seq<char>, other: Category)
    ensures
        !has_category(e, c) ==> first_of(e.push((c, v)), c) == Some((c, v)),
        has_category(e, c) ==> first_of(e.push((c, v)), c) == first_of(e, c),
        other != c ==> first_of(e.push((c, v)), other) == first_of(e, other),
{
    let s = e.push((c, v));
    lemma_first_of(s, c);
    lemma_first_of(e, c);
    lemma_first_of(s, other);
    lemma_first_of(e, other);
    if !has_category(e, c) {
        assert(is_first_of(s, c, e.len() as int)) by {
            assert forall|j: int| 0 <= j < e.len() implies (#[trigger] s[j]).0 != c by {
                assert(s[j] == e[j]);
            }
        }
    } else {
        let i = lemma_first_index(e, c);
        assert(is_first_of(s, c, i)) by {
            assert forall|j: int| 0 <= j < i implies (#[trigger] s[j]).0 != c by {
                assert(s[j] == e[j]);
            }
        }
    }
    if other != c {
        if has_category(e, other) {
            let i = lemma_first_index(e, other);
            assert(is_first_of(s, other, i)) by {
                assert forall|j: int| 0 <= j < i implies (#[trigger] s[j]).0 != other by {
                    assert(s[j] == e[j]);
                }
            }
        } else {
            assert(!has_category(s, other)) by {
                if has_category(s, other) {
                    let j = choose|j: int| 0 <= j < s.len() && (#[trigger] s[j]).0 == other;
                    assert(e[j] == s[j]);
                }
            }
        }
    }
}

/// After `push`, `count` grows by one on the pushed category and stays on every other.
pub proof fn law_push_then_count(e: Seq<ElementView>, c: Category, v: Seq<char>, other: Category)
    ensures
        of_category(e.push((c, v)), other).len() == of_category(e, other).len() + if other == c {
            1int
        } else {
            0int
        },
{
    e.lemma_filter_push((c, v), is_of(other));
}

/// `remove_first` right after a `push` on a category that had no element undoes the push, and
/// gives back the pushed value.
pub proof fn law_push_then_remove_first(e: Seq<ElementView>, c: Category, v: Seq<char>)
    requires
        !has_category(e, c),
    ensures
        without_first_of(e.push((c, v)), c) == e,
        first_of(e.push((c, v)), c) == Some((c, v)),
{
    let s = e.push((c, v));
    law_push_then_find(e, c, v, c);
    assert(is_first_of(s, c, e.len() as int)) by {
        assert forall|j: int| 0 <= j < e.len() implies (#[trigger] s[j]).0 != c by {
            assert(s[j] == e[j]);
        }
    }
    lemma_without_first_of(s, c, e.len() as int);
    assert(s.remove(e.len() as int) =~= e);
}

/// The elements of one category among a single element.
proof fn lemma_of_category_single(x: ElementView, c: Category)
    ensures
        of_category(seq![x], c).len() == if x.0 == c { 1int } else { 0int },
{
    Seq::<ElementView>::empty().lemma_filter_push(x, is_of(c));
    Seq::<ElementView>::empty().lemma_filter_len(is_of(c));
    assert(Seq::<ElementView>::empty().push(x) =~= seq![x]);
}

/// `remove_first` takes out one element of its category when there is one, and none of any
/// other category.
pub proof fn law_remove_first_count(e: Seq<ElementView>, c: Category, other: Category)
    ensures
        of_category(without_first_of(e, c), other).len() == of_category(e, other).len() - if other == c
            && has_category(e, c) {
            1int
        } else {
            0int
        },
{
    if has_category(e, c) {
        let i = lemma_first_index(e, c);
        lemma_without_first_of(e, c, i);
        let a = e.subrange(0, i);
        let b = e.subrange(i + 1, e.len() as int);
        assert(e.remove(i) =~= a + b);
        assert(e =~= (a + seq![e[i]]) + b);
        Seq::filter_distributes_over_add(a, b, is_of(other));
        Seq::filter_distributes_over_add(a + seq![e[i]], b, is_of(other));
        Seq::filter_distributes_over_add(a, seq![e[i]], is_of(other));
        lemma_of_category_single(e[i], other);
    } else {
        lemma_without_first_of_absent(e, c);
    }
}

/// A category is empty exactly when `count` is zero, exactly when `find` (and `find_all`) gives
/// nothing, and exactly when `contains` answers `false` for every value of it.
pub proof fn law_category_empty(e: Seq<ElementView>, c: Category)
    ensures
        !has_category(e, c) <==> of_category(e, c).len() == 0,
        !has_category(e, c) <==> first_of(e, c) is None,
        !has_category(e, c) <==> forall|v: Seq<char>| !#[trigger] e.contains((c, v)),
{
    lemma_first_of(e, c);
    assert forall|v: Seq<char>| #[trigger] e.contains((c, v)) implies has_category(e, c) by {
        let j = choose|j: int| 0 <= j < e.len() && e[j] == (c, v);
        assert(e[j].0 == c);
    }
    if has_category(e, c) {
        let i = choose|i: int| 0 <= i < e.len() && (#[trigger] e[i]).0 == c;
        e.lemma_filter_contains(is_of(c), i);
        assert(e.contains((c, e[i].1)));
    } else if of_category(e, c).len() > 0 {
        let x = of_category(e, c)[0];
        e.lemma_filter_pred(is_of(c), 0);
        e.lemma_filter_contains_rev(is_of(c), x);
        let j = choose|j: int| 0 <= j < e.len() && e[j] == x;
        assert(e[j].0 == c);
    }
}

/// With exactly one element of category `c`, `first_of` gives it, and taking it out leaves none.
pub proof fn lemma_single_of_category(e: Seq<ElementView>, c: Category)
    requires
        of_category(e, c).len() == 1,
    ensures
        first_of(e, c) == Some(of_category(e, c)[0]),
        of_category(e, c) == seq![of_category(e, c)[0]],
        of_category(without_first_of(e, c), c).len() == 0,
{
    law_category_empty(e, c);
    let i = lemma_first_index(e, c);
    lemma_first_of(e, c);
    e.lemma_filter_contains(is_of(c), i);
    assert(of_category(e, c)[0] == e[i]);
    assert(of_category(e, c) =~= seq![of_category(e, c)[0]]);
    law_remove_first_count(e, c, c);
}

/// Every category, once each.
pub open spec fn all_categories() -> Seq<Category> {
    seq![
        Category::AnimeSeason,
        Category::AnimeSeasonPrefix,
        Category::AnimeTitle,
        Category::AnimeType,
        Category::AnimeYear,
        Category::AudioTerm,
        Category::DeviceCompatibility,
        Category::EpisodeNumber,
        Category::EpisodeNumberAlt,
        Category::EpisodePrefix,
        Category::EpisodeTitle,
        Category::FileChecksum,
        Category::FileExtension,
        Category::FileName,
        Category::Language,
        Category::Other,
        Category::ReleaseGroup,
        Category::ReleaseInformation,
        Category::ReleaseVersion,
        Category::Source,
        Category::Subtitles,
        Category::VideoResolution,
        Category::VideoTerm,
        Category::VolumeNumber,
        Category::VolumePrefix,
        Category::Unknown,
    ]
}

/// How many times `c` occurs in `cs`.
pub open spec fn occurrences(cs: Seq<Category>, c: Category) -> nat
    decreases cs.len(),
{
    if cs.len() == 0 {
        0
    } else {
        occurrences(cs.drop_last(), c) + if cs.last() == c { 1nat } else { 0nat }
    }
}

/// The counts of the categories `cs` in `e`, added up.
pub open spec fn count_sum(e: Seq<ElementView>, cs: Seq<Category>) -> nat
    decreases cs.len(),
{
    if cs.len() == 0 {
        0
    } else {
        count_sum(e, cs.drop_last()) + of_category(e, cs.last()).len()
    }
}

/// Each category occurs once in `all_categories`.
proof fn lemma_all_categories_once(c: Category)
    ensures
        occurrences(all_categories(), c) == 1,
{
    reveal_with_fuel(occurrences, 27);
}

/// With no element, every count is zero.
proof fn lemma_count_sum_empty(cs: Seq<Category>)
    ensures
        count_sum(Seq::<ElementView>::empty(), cs) == 0,
    decreases cs.len(),
{
    if cs.len() > 0 {
        lemma_count_sum_empty(cs.drop_last());
        Seq::<ElementView>::empty().lemma_filter_len(is_of(cs.last()));
    }
}

/// One more element adds one to the count of each occurrence of its category in `cs`.
proof fn lemma_count_sum_push(e: Seq<ElementView>, x: ElementView, cs: Seq<Category>)
    ensures
        count_sum(e.push(x), cs) == count_sum(e, cs) + occurrences(cs, x.0),
    decreases cs.len(),
{
    if cs.len() > 0 {
        lemma_count_sum_push(e, x, cs.drop_last());
        e.lemma_filter_push(x, is_of(cs.last()));
    }
}

/// The counts over all categories add up to the size of the collection.
pub proof fn law_counts_add_up(e: Seq<ElementView>)
    ensures
        count_sum(e, all_categories()) == e.len(),
    decreases e.len(),
{
    if e.len() == 0 {
        assert(e =~= Seq::<ElementView>::empty());
        lemma_count_sum_empty(all_categories());
    } else {
        law_counts_add_up(e.drop_last());
        lemma_count_sum_push(e.drop_last(), e.last(), all_categories());
        lemma_all_categories_once(e.last().0);
        assert(e.drop_last().push(e.last()) =~= e);
    }
}

/// The collection's `==` is reflexive.
pub proof fn law_eq_reflexive(a: Seq<ElementView>)
    ensures
        same_size_and_contained(a, a),
{
    assert forall|i: int| 0 <= i < a.len() implies a.contains(#[trigger] a[i]) by {}
}

/// The collection's `==` is symmetric when the first collection holds no element twice. (With
/// a repeated element it is not: two copies of one element compare equal to that element and
/// another one, but not the other way round.)
pub proof fn law_eq_symmetric(a: Seq<ElementView>, b: Seq<ElementView>)
    requires
        a.no_duplicates(),
        same_size_and_contained(a, b),
    ensures
        same_size_and_contained(b, a),
{
    broadcast use vstd::set::group_set_axioms, vstd::seq_lib::seq_to_set_is_finite;
    a.unique_seq_to_set();
    b.lemma_cardinality_of_set();
    assert(a.to_set().subset_of(b.to_set())) by {
        assert forall|x: ElementView| a.to_set().contains(x) implies b.to_set().contains(x) by {
            let i = choose|i: int| 0 <= i < a.len() && a[i] == x;
            assert(b.contains(a[i]));
        }
    }
    vstd::set_lib::lemma_len_subset(a.to_set(), b.to_set());
    vstd::set_lib::lemma_subset_equality(a.to_set(), b.to_set());
    assert forall|i: int| 0 <= i < b.len() implies a.contains(#[trigger] b[i]) by {
        assert(b.to_set().contains(b[i]));
        assert(a.to_set().contains(b[i]));
    }
}

impl Default for Elements {
    fn default() -> (r: Elements)
        ensures
            r@ == Seq::<ElementView>::empty(),
    {
        let r = Elements { elements: Vec::new() };
        assert(r@ =~= Seq::<ElementView>::empty());
        r
    }
}

impl Elements {
    /// Creates an empty collection.
    pub fn new() -> (r: Elements)
        ensures
            r@ == Seq::<ElementView>::empty(),
    {
        let r = Elements { elements: Vec::new() };
        assert(r@ =~= Seq::<ElementView>::empty());
        r
    }

    /// Total number of elements across all categories.
    pub fn size(&self) -> (r: usize)
        ensures
            r == self@.len(),
    {
        self.elements.len()
    }

    /// Returns `true` if an element with the given category and exact value exists.
    pub fn contains(&self, c: Category, v: &str) -> (r: bool)
        ensures
            r == self@.contains((c, v@)),
    {
        let n = self.elements.len();
        let mut i: usize = 0;
        while i < n
            invariant
                n == self.elements@.len(),
                0 <= i <= n,
                forall|j: int| 0 <= j < i ==> self@[j] != (c, v@),
            decreases n - i,
        {
            let e = &self.elements[i];
            if e.category == c && crate::text::str_eq(e.value.as_str(), v) {
                assert(self@[i as int] == (c, v@));
                return true;
            }
            i = i + 1;
        }
        assert(!self@.contains((c, v@))) by {
            if self@.contains((c, v@)) {
                let j = choose|j: int| 0 <= j < self@.len() && self@[j] == (c, v@);
                assert(self@[j] != (c, v@));
            }
        }
        false
    }

    /// Appends a new element (mutable, in-place).
    pub fn push(&mut self, c: Category, v: &str)
        ensures
            final(self)@ == old(self)@.push((c, v@)),
    {
        self.elements.push(Element::new(c, v));
        assert(self@ =~= old(self)@.push((c, v@)));
    }

    /// Appends a new element whose text is given as characters.
    pub fn push_chars(&mut self, c: Category, v: &Vec<char>)
        ensures
            final(self)@ == old(self)@.push((c, v@)),
    {
        let text = crate::text::string_of(v);
        self.push(c, text.as_str());
    }

    /// Appends a new element and returns `self` (builder style).
    pub fn add(self, c: Category, v: &str) -> (r: Elements)
        ensures
            r@ == self@.push((c, v@)),
    {
        let mut s = self;
        s.push(c, v);
        s
    }

    /// Position of the first element of category `c`, if any.
    fn position(&self, c: Category) -> (r: Option<usize>)
        ensures
            r is None <==> !has_category(self@, c),
            r matches Some(i) ==> is_first_of(self@, c, i as int),
    {
        let n = self.elements.len();
        let mut i: usize = 0;
        while i < n
            invariant
                n == self.elements@.len(),
                0 <= i <= n,
                forall|j: int| 0 <= j < i ==> (#[trigger] self@[j]).0 != c,
            decreases n - i,
        {
            if self.elements[i].category == c {
                assert(self@[i as int].0 == c);
                return Some(i);
            }
            assert(self@[i as int].0 != c);
            i = i + 1;
        }
        assert(!has_category(self@, c)) by {
            if has_category(self@, c) {
                let j = choose|j: int| 0 <= j < self@.len() && (#[trigger] self@[j]).0 == c;
                assert(self@[j].0 != c);
            }
        }
        None
    }

    /// Returns the first element matching the given category, or `None`.
    pub fn find(&self, c: Category) -> (r: Option<Element>)
        ensures
            r matches Some(e) ==> first_of(self@, c) == Some(e@),
            r is None ==> first_of(self@, c) is None,
    {
        proof {
            lemma_first_of(self@, c);
        }
        match self.position(c) {
            Some(i) => {
                assert(self@[i as int] == self.elements@[i as int]@);
                Some(self.elements[i].duplicate())
            },
            None => None,
        }
    }

    /// Returns all elements matching the given category, or `None` if there are none.
    pub fn find_all(&self, c: Category) -> (r: Option<Vec<Element>>)
        ensures
            r is None <==> of_category(self@, c).len() == 0,
            r matches Some(v) ==> v@.map_values(|e: Element| e@) == of_category(self@, c),
    {
        broadcast use Seq::lemma_filter_push;
        let n = self.elements.len();
        let mut out: Vec<Element> = Vec::new();
        let mut i: usize = 0;
        while i < n
            invariant
                n == self.elements@.len(),
                0 <= i <= n,
                out@.map_values(|e: Element| e@) == of_category(self@.take(i as int), c),
            decreases n - i,
        {
            assert(self@.take(i + 1) =~= self@.take(i as int).push(self@[i as int]));
            proof {
                self@.take(i as int).lemma_filter_push(self@[i as int], is_of(c));
            }
            if self.elements[i].category == c {
                let ghost before = out@;
                out.push(self.elements[i].duplicate());
                assert(out@.map_values(|e: Element| e@) =~= before.map_values(|e: Element| e@).push(self@[i as int]));
            }
            i = i + 1;
        }
        assert(self@.take(n as int) =~= self@);
        if out.len() == 0 {
            None
        } else {
            Some(out)
        }
    }

    /// Number of elements of the given category, as a `usize`.
    pub fn count_of(&self, c: Category) -> (r: usize)
        ensures
            r == of_category(self@, c).len(),
    {
        broadcast use Seq::lemma_filter_push;
        let n = self.elements.len();
        let mut count: usize = 0;
        let mut i: usize = 0;
        while i < n
            invariant
                n == self.elements@.len(),
                0 <= i <= n,
                count == of_category(self@.take(i as int), c).len(),
                count <= i,
            decreases n - i,
        {
            assert(self@.take(i + 1) =~= self@.take(i as int).push(self@[i as int]));
            proof {
                self@.take(i as int).lemma_filter_push(self@[i as int], is_of(c));
            }
            if self.elements[i].category == c {
                count = count + 1;
            }
            i = i + 1;
        }
        assert(self@.take(n as int) =~= self@);
        count
    }

    /// Returns the number of elements for the given category.
    pub fn count(&self, c: Category) -> (r: i32)
        requires
            of_category(self@, c).len() <= i32::MAX,
        ensures
            r == of_category(self@, c).len(),
    {
        let n = self.count_of(c);
        n as i32
    }

    /// Returns `true` if no elements have been extracted at all.
    pub fn is_empty(&self) -> (r: bool)
        ensures
            r == (self@.len() == 0),
    {
        self.elements.len() == 0
    }

    /// Returns `true` if no element of the given category was found.
    pub fn is_category_empty(&self, c: Category) -> (r: bool)
        ensures
            r == !has_category(self@, c),
    {
        self.position(c).is_none()
    }

    /// Removes and returns the value of the first element matching the given category.
    pub fn remove_first(&mut self, c: Category) -> (r: Option<String>)
        ensures
            r matches Some(v) ==> first_of(old(self)@, c) == Some((c, v@)),
            r is None ==> first_of(old(self)@, c) is None,
            final(self)@ == without_first_of(old(self)@, c),
    {
        proof {
            lemma_first_of(self@, c);
        }
        match self.position(c) {
            Some(i) => {
                proof {
                    lemma_without_first_of(self@, c, i as int);
                }
                let ghost before = self.elements@;
                let e = self.elements.remove(i);
                assert(self@ =~= before.map_values(|e: Element| e@).remove(i as int));
                Some(e.value)
            },
            None => {
                proof {
                    lemma_without_first_of_absent(self@, c);
                }
                None
            },
        }
    }
}

impl PartialEq for Elements {
    fn eq(&self, other: &Self) -> (r: bool) {
        if self.elements.len() != other.elements.len() {
            return false;
        }
        let n = self.elements.len();
        let mut i: usize = 0;
        while i < n
            invariant
                n == self.elements@.len(),
                n == other.elements@.len(),
                0 <= i <= n,
                forall|j: int| 0 <= j < i ==> other@.contains(#[trigger] self@[j]),
            decreases n - i,
        {
            if !other.holds(&self.elements[i]) {
                assert(!same_size_and_contained(self@, other@)) by {
                    assert(!other@.contains(self@[i as int]));
                }
                return false;
            }
            i = i + 1;
        }
        true
    }
}

impl vstd::std_specs::cmp::PartialEqSpecImpl for Elements {
    open spec fn obeys_eq_spec() -> bool {
        true
    }

    open spec fn eq_spec(&self, other: &Self) -> bool {
        same_size_and_contained(self@, other@)
    }
}

impl Eq for Elements {
}

impl Elements {
    /// Whether an element with the same category and text as `e` is held.
    fn holds(&self, e: &Element) -> (r: bool)
        ensures
            r == self@.contains(e@),
    {
        self.contains(e.category, e.value.as_str())
    }
}

} // verus!
