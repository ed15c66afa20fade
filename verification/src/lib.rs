//! Library for parsing anime video filenames.
//!
//! See [`Parser`] for the entry point.
use vstd::prelude::*;

use crate::elements::{
    Category, ElementView, Elements, grows, is_of, lemma_grows_refl, lemma_grows_trans, lemma_of_category_grows_with,
    lemma_of_category_push, of_category,
};
use crate::errors::ParsingError;
use crate::parsing::episode_number::{
    detect_episode_number_alt, lemma_alt_file_name, lemma_alt_keeps_prefix, lemma_episode_number_file_name,
    parse_episode_number,
};
use crate::token::main_token::tokens_view;
use crate::parsing::episode_number::{alt_spec, episode_number_spec};
use crate::parsing::extensions::{extension_of, get_extension, remove_extension, without_extension};
use crate::parsing::string::{
    anime_title_spec, episode_title_from, parse_anime_title, parse_episode_title, parse_release_group, release_group_spec,
};
use crate::parsing::{keywords_spec, lemma_keywords_file_name, parsing_keywords};
use crate::split::{split_raw_data, split_raw_spec};
use crate::utils::remove_from;
use crate::text::{char_in, chars_of};
use crate::utils::remove_ignored_string;

pub mod elements;
pub mod errors;
pub mod keyword;
pub mod parsing;
pub mod split;
pub mod text;
pub mod token;
pub mod utils;

verus! {

/// The settings of a [`Parser`].
pub struct ParserView {
    /// The filename to parse.
    pub file_name: Seq<char>,
    /// Substrings stripped from the filename before parsing.
    pub ignored: Seq<Seq<char>>,
    /// Characters treated as token delimiters.
    pub delimiters: Seq<char>,
    /// Whether the episode number is extracted.
    pub ep_number: bool,
    /// Whether the episode title is extracted.
    pub ep_title: bool,
    /// Whether the file extension is extracted.
    pub file_extension: bool,
    /// Whether the release group is extracted.
    pub release_group: bool,
}

/// The delimiters a new parser starts with.
pub open spec fn default_delimiters() -> Seq<char> {
    seq![' ', '_', '.', '-', '&', '+', ',', '|']
}

/// The elements every successful parse starts with: the filename, then, when the extension is
/// extracted, its known extension when it has a non-empty one.
pub open spec fn leading_elements(name: Seq<char>, with_extension: bool) -> Seq<ElementView> {
    let head = seq![(Category::FileName, name)];
    match extension_of(name) {
        Some(ext) => if with_extension && ext.len() > 0 {
            head.push((Category::FileExtension, ext))
        } else {
            head
        },
        None => head,
    }
}

/// What `Parser::parse` gives for the settings `p`: an error when the name without its
/// extension is empty; only the leading elements when that name opens a `[` it never closes;
/// otherwise the leading elements extended by the passes, in order: keywords, the episode
/// number and its alternative (when switched on), the anime title, the release group (when
/// switched on) and the episode title (when switched on), over the tokens of the name without
/// its extension and without the ignored strings.
pub open spec fn parse_spec(p: ParserView) -> Result<Seq<ElementView>, ParsingError> {
    let head = leading_elements(p.file_name, p.file_extension);
    let stripped = without_extension(p.file_name);
    if stripped.len() == 0 {
        Err(ParsingError::StringIsEmpty)
    } else if stripped.contains('[') && !stripped.contains(']') {
        Ok(head)
    } else {
        let d = p.delimiters;
        let ts = split_raw_spec(remove_from(stripped, p.ignored, 0), d);
        let s1 = keywords_spec(ts, head, 0, ts.len() as int);
        let s2 = if p.ep_number {
            let a = episode_number_spec(d, s1.0, s1.1);
            alt_spec(a.0, a.1)
        } else {
            s1
        };
        let s3 = anime_title_spec(s2.0, s2.1, d);
        let s4 = if p.release_group {
            release_group_spec(s3.0, s3.1, d)
        } else {
            s3
        };
        let s5 = if p.ep_title {
            episode_title_from(s4.0, s4.1, d, 0)
        } else {
            s4
        };
        Ok(s5.1)
    }
}

/// The leading elements hold one element that stands for the filename: the filename itself.
proof fn lemma_leading_file_name(name: Seq<char>, with_extension: bool)
    ensures
        of_category(leading_elements(name, with_extension), Category::FileName) == seq![(Category::FileName, name)],
{
    let c = Category::FileName;
    let x = (c, name);
    let empty = Seq::<ElementView>::empty();
    empty.lemma_filter_len(is_of(c));
    assert(of_category(empty, c) =~= empty);
    empty.lemma_filter_push(x, is_of(c));
    assert(seq![x] =~= empty.push(x));
    assert(of_category(seq![x], c) =~= seq![x]);
    if let Some(ext) = extension_of(name) {
        lemma_of_category_push(seq![x], (Category::FileExtension, ext), c);
    }
}

/// Builder for parsing an anime video filename.
///
/// Construct with [`Parser::new`], configure with the builder methods, then call [`Parser::parse`].
#[derive(Debug, Clone, PartialEq, Eq)]
pub struct Parser {
    file_name: String,
    ignored_string: Vec<String>,
    allowed_delimiters: Vec<char>,
    ep_number: bool,
    ep_title: bool,
    file_extension: bool,
    release_group: bool,
}

impl View for Parser {
    type V = ParserView;

    closed spec fn view(&self) -> ParserView {
        ParserView {
            file_name: self.file_name@,
            ignored: self.ignored_string@.map_values(|s: String| s@),
            delimiters: self.allowed_delimiters@,
            ep_number: self.ep_number,
            ep_title: self.ep_title,
            file_extension: self.file_extension,
            release_group: self.release_group,
        }
    }
}

impl Default for Parser {
    /// A parser with an empty filename, no delimiters and every extraction switched off.
    fn default() -> (r: Parser)
        ensures
            r@ == (ParserView {
                file_name: Seq::empty(),
                ignored: Seq::empty(),
                delimiters: Seq::empty(),
                ep_number: false,
                ep_title: false,
                file_extension: false,
                release_group: false,
            }),
    {
        let r = Parser {
            file_name: String::new(),
            ignored_string: Vec::new(),
            allowed_delimiters: Vec::new(),
            ep_number: false,
            ep_title: false,
            file_extension: false,
            release_group: false,
        };
        assert(r@.ignored =~= Seq::empty());
        r
    }
}

impl Parser {
    /// Creates a new parser for the given filename.
    pub fn new(f_name: &str) -> (r: Parser)
        ensures
            r@ == (ParserView {
                file_name: f_name@,
                ignored: Seq::empty(),
                delimiters: default_delimiters(),
                ep_number: true,
                ep_title: true,
                file_extension: true,
                release_group: true,
            }),
    {
        let r = Parser {
            file_name: f_name.to_string(),
            ignored_string: Vec::new(),
            allowed_delimiters: vec![' ', '_', '.', '-', '&', '+', ',', '|'],
            ep_number: true,
            ep_title: true,
            file_extension: true,
            release_group: true,
        };
        assert(r@.ignored =~= Seq::empty());
        assert(r@.delimiters =~= default_delimiters());
        r
    }

    /// Whether to extract the episode number. Default: `true`.
    pub fn ep_number(self, need_to_parse: bool) -> (r: Self)
        ensures
            r@ == (ParserView { ep_number: need_to_parse, ..self@ }),
    {
        let mut s = self;
        s.ep_number = need_to_parse;
        s
    }

    /// Whether to extract the episode title. Default: `true`.
    pub fn ep_title(self, need_to_parse: bool) -> (r: Self)
        ensures
            r@ == (ParserView { ep_title: need_to_parse, ..self@ }),
    {
        let mut s = self;
        s.ep_title = need_to_parse;
        s
    }

    /// Whether to extract the file extension. Default: `true`. Switched off, no extension element is
    /// recorded; a known extension is still left out of the text that is parsed.
    pub fn file_extension(self, need_to_parse: bool) -> (r: Self)
        ensures
            r@ == (ParserView { file_extension: need_to_parse, ..self@ }),
    {
        let mut s = self;
        s.file_extension = need_to_parse;
        s
    }

    /// Whether to extract the release group. Default: `true`.
    pub fn release_group(self, need_to_parse: bool) -> (r: Self)
        ensures
            r@ == (ParserView { release_group: need_to_parse, ..self@ }),
    {
        let mut s = self;
        s.release_group = need_to_parse;
        s
    }

    /// Replaces the filename to parse.
    pub fn file_name(self, name: &str) -> (r: Self)
        ensures
            r@ == (ParserView { file_name: name@, ..self@ }),
    {
        let mut s = self;
        s.file_name = name.to_string();
        s
    }

    /// Substrings to strip from the filename before parsing (e.g. `vec!["[SubGroup]"]`).
    pub fn ignored_string(self, i: Vec<&str>) -> (r: Self)
        ensures
            r@ == (ParserView { ignored: i@.map_values(|s: &str| s@), ..self@ }),
    {
        let mut owned: Vec<String> = Vec::new();
        let n = i.len();
        let mut k: usize = 0;
        while k < n
            invariant
                n == i@.len(),
                0 <= k <= n,
                owned@.map_values(|s: String| s@) == i@.take(k as int).map_values(|s: &str| s@),
            decreases n - k,
        {
            let ghost before = owned@;
            owned.push(i[k].to_string());
            assert(owned@.map_values(|s: String| s@) =~= before.map_values(|s: String| s@).push(i@[k as int]@));
            assert(i@.take(k + 1).map_values(|s: &str| s@) =~= i@.take(k as int).map_values(|s: &str| s@).push(
                i@[k as int]@,
            ));
            k = k + 1;
        }
        assert(i@.take(n as int) =~= i@);
        let mut s = self;
        s.ignored_string = owned;
        s
    }

    /// Characters treated as token delimiters. Default: `[' ', '_', '.', '-', '&', '+', ',', '|']`.
    pub fn allowed_delimiters(self, d: Vec<char>) -> (r: Self)
        ensures
            r@ == (ParserView { delimiters: d@, ..self@ }),
    {
        let mut s = self;
        s.allowed_delimiters = d;
        s
    }

    /// Parses the filename and returns the extracted elements.
    ///
    /// Returns `Err(ParsingError::StringIsEmpty)` exactly when the filename is empty after
    /// stripping its extension. Otherwise the result starts with the filename and (when that is
    /// switched on) its extension;
    /// when the stripped name opens a `[` that it never closes, that is all it holds. The result
    /// holds exactly one element of category `FileName`: the filename itself.
    pub fn parse(&self) -> (r: Result<Elements, ParsingError>)
        ensures
            match r {
                Ok(found) => parse_spec(self@) == Ok::<Seq<ElementView>, ParsingError>(found@),
                Err(e) => parse_spec(self@) == Err::<Seq<ElementView>, ParsingError>(e),
            },
            r is Err <==> without_extension(self@.file_name).len() == 0,
            r matches Err(e) ==> e == ParsingError::StringIsEmpty,
            r matches Ok(found) ==> grows(leading_elements(self@.file_name, self@.file_extension), found@),
            r matches Ok(found) ==> (without_extension(self@.file_name).contains('[')
                && !without_extension(self@.file_name).contains(']')) ==> found@ == leading_elements(
                self@.file_name,
                self@.file_extension,
            ),
            r matches Ok(found) ==> of_category(found@, Category::FileName) == seq![
                (Category::FileName, self@.file_name),
            ],
    {
        let mut found_elements = Elements::new().add(Category::FileName, self.file_name.as_str());
        let extension = match get_extension(self.file_name.as_str()) {
            Some(e) => e,
            None => String::new(),
        };
        if self.file_extension && chars_of(extension.as_str()).len() != 0 {
            found_elements.push(Category::FileExtension, extension.as_str());
        }
        assert(found_elements@ =~= leading_elements(self@.file_name, self@.file_extension));
        let ghost head = found_elements@;
        proof {
            lemma_grows_refl(head);
            lemma_leading_file_name(self@.file_name, self@.file_extension);
            assert(head[0].0 == Category::FileName);
        }
        let to_parse_str = remove_extension(self.file_name.as_str());
        let to_parse = chars_of(to_parse_str.as_str());
        if to_parse.len() == 0 {
            return Err(ParsingError::StringIsEmpty);
        }
        if char_in(to_parse.as_slice(), '[') && !char_in(to_parse.as_slice(), ']') {
            return Ok(found_elements);
        }
        let cleaned = remove_ignored_string(to_parse_str.as_str(), self.ignored_string.as_slice());
        let delimiters = self.allowed_delimiters.as_slice();
        let mut tokens = split_raw_data(cleaned.as_str(), delimiters);
        let ghost e1 = found_elements@;
        let ghost d = self@.delimiters;
        let ghost ts0 = split_raw_spec(remove_from(without_extension(self@.file_name), self@.ignored, 0), d);
        assert(tokens_view(tokens@) == ts0);
        let ghost s1 = keywords_spec(ts0, head, 0, ts0.len() as int);
        parsing_keywords(&mut found_elements, &mut tokens);
        assert((tokens_view(tokens@), found_elements@) == s1);
        proof {
            lemma_grows_trans(head, e1, found_elements@);
            lemma_keywords_file_name(ts0, head, 0, ts0.len() as int);
        }
        if self.ep_number {
            let ghost e2 = found_elements@;
            let ghost t2 = tokens@;
            parse_episode_number(delimiters, &mut tokens, &mut found_elements);
            let ghost e3 = found_elements@;
            let ghost t3 = tokens@;
            proof {
                lemma_grows_trans(head, e2, e3);
                lemma_episode_number_file_name(d, tokens_view(t2), e2);
            }
            detect_episode_number_alt(&mut tokens, &mut found_elements);
            proof {
                lemma_alt_keeps_prefix(head, tokens_view(t3), e3);
                lemma_alt_file_name(tokens_view(t3), e3);
            }
        }
        let ghost s2 = if self@.ep_number {
            let a = episode_number_spec(d, s1.0, s1.1);
            alt_spec(a.0, a.1)
        } else {
            s1
        };
        assert((tokens_view(tokens@), found_elements@) == s2);
        let ghost e4 = found_elements@;
        parse_anime_title(&mut tokens, &mut found_elements, delimiters);
        proof {
            lemma_grows_trans(head, e4, found_elements@);
            lemma_of_category_grows_with(e4, found_elements@, Category::AnimeTitle, Category::FileName);
        }
        let ghost s3 = anime_title_spec(s2.0, s2.1, d);
        assert((tokens_view(tokens@), found_elements@) == s3);
        if self.release_group {
            let ghost e5 = found_elements@;
            parse_release_group(&mut tokens, &mut found_elements, delimiters);
            proof {
                lemma_grows_trans(head, e5, found_elements@);
                lemma_of_category_grows_with(e5, found_elements@, Category::ReleaseGroup, Category::FileName);
            }
        }
        let ghost s4 = if self@.release_group {
            release_group_spec(s3.0, s3.1, d)
        } else {
            s3
        };
        assert((tokens_view(tokens@), found_elements@) == s4);
        if self.ep_title {
            let ghost e6 = found_elements@;
            parse_episode_title(&mut tokens, &mut found_elements, delimiters);
            proof {
                lemma_grows_trans(head, e6, found_elements@);
                lemma_of_category_grows_with(e6, found_elements@, Category::EpisodeTitle, Category::FileName);
            }
        }
        Ok(found_elements)
    }
}

} // verus!
