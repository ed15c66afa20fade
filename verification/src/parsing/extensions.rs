//! File extension detection.
use vstd::prelude::*;

use crate::text::{chars_of, slice_of, str_eq, string_of, to_upper, upper_of};

verus! {

/// The known file extensions, in upper case.
pub open spec fn extension_word(s: Seq<char>) -> bool {
    ||| s == "3GP"@
    ||| s == "AVI"@
    ||| s == "DIVX"@
    ||| s == "FLV"@
    ||| s == "M2TS"@
    ||| s == "MKV"@
    ||| s == "MOV"@
    ||| s == "MP4"@
    ||| s == "MPG"@
    ||| s == "OGM"@
    ||| s == "RM"@
    ||| s == "RMVB"@
    ||| s == "TS"@
    ||| s == "WEBM"@
    ||| s == "WMV"@
    ||| s == "AAC"@
    ||| s == "AIFF"@
    ||| s == "FLAC"@
    ||| s == "M4A"@
    ||| s == "MP3"@
    ||| s == "MKA"@
    ||| s == "OGG"@
    ||| s == "WAV"@
    ||| s == "WMA"@
    ||| s == "7Z"@
    ||| s == "RAR"@
    ||| s == "ZIP"@
    ||| s == "ASS"@
    ||| s == "SRT"@
}

/// `p` is the position of the last `.` of `s`.
pub open spec fn is_last_dot(s: Seq<char>, p: int) -> bool {
    &&& 0 <= p < s.len()
    &&& s[p] == '.'
    &&& forall|j: int| p < j < s.len() ==> (#[trigger] s[j]) != '.'
}

/// The text after the last `.` of `s` is a known extension (compared in upper case).
pub open spec fn has_extension_at(s: Seq<char>, p: int) -> bool {
    is_last_dot(s, p) && extension_word(upper_of(s.subrange(p + 1, s.len() as int)))
}

/// Whether `s` is one of the known extensions.
fn is_extension_word(s: &str) -> (r: bool)
    ensures
        r == extension_word(s@),
{
    str_eq(s, "3GP") || str_eq(s, "AVI") || str_eq(s, "DIVX") || str_eq(s, "FLV") || str_eq(s, "M2TS") || str_eq(s, "MKV") || str_eq(s, "MOV") || str_eq(s, "MP4") || str_eq(s, "MPG") || str_eq(s, "OGM") || str_eq(s, "RM") || str_eq(s, "RMVB") || str_eq(s, "TS") || str_eq(s, "WEBM") || str_eq(s, "WMV") || str_eq(s, "AAC") || str_eq(s, "AIFF") || str_eq(s, "FLAC") || str_eq(s, "M4A") || str_eq(s, "MP3") || str_eq(s, "MKA") || str_eq(s, "OGG") || str_eq(s, "WAV") || str_eq(s, "WMA") || str_eq(s, "7Z") || str_eq(s, "RAR") || str_eq(s, "ZIP") || str_eq(s, "ASS") || str_eq(s, "SRT")
}

/// Position of the last `.` of `cs`, if any.
fn last_dot(cs: &Vec<char>) -> (r: Option<usize>)
    ensures
        r matches Some(p) ==> is_last_dot(cs@, p as int),
        r is None ==> forall|j: int| 0 <= j < cs@.len() ==> (#[trigger] cs@[j]) != '.',
{
    let mut k = cs.len();
    while k > 0
        invariant
            k <= cs@.len(),
            forall|j: int| k <= j < cs@.len() ==> (#[trigger] cs@[j]) != '.',
        decreases k,
    {
        if cs[k - 1] == '.' {
            return Some(k - 1);
        }
        k = k - 1;
    }
    None
}

/// Position of the dot before a known extension of `cs`, if there is one.
fn extension_dot(cs: &Vec<char>) -> (r: Option<usize>)
    ensures
        r matches Some(p) ==> has_extension_at(cs@, p as int),
        r is None ==> forall|p: int| !has_extension_at(cs@, p),
{
    let n = cs.len();
    match last_dot(cs) {
        Some(p) => {
            assert(p < n);
            let ext = string_of(&slice_of(cs, p + 1, cs.len()));
            let upper = to_upper(ext.as_str());
            if is_extension_word(upper.as_str()) {
                Some(p)
            } else {
                assert forall|q: int| !has_extension_at(cs@, q) by {
                    if is_last_dot(cs@, q) {
                        assert(q == p) by {
                            if q < p { assert(cs@[p as int] != '.'); }
                            if q > p { assert(cs@[q] != '.'); }
                        }
                    }
                }
                None
            }
        },
        None => {
            assert forall|q: int| !has_extension_at(cs@, q) by {
                if is_last_dot(cs@, q) {
                    assert(cs@[q] != '.');
                }
            }
            None
        },
    }
}

/// The position of the dot before a known extension that ends `s`, if any.
pub open spec fn extension_dot_of(s: Seq<char>) -> Option<int> {
    if exists|p: int| has_extension_at(s, p) {
        Some(choose|p: int| has_extension_at(s, p))
    } else {
        None
    }
}

/// The known extension that ends `s` (the text after its last dot), if any.
pub open spec fn extension_of(s: Seq<char>) -> Option<Seq<char>> {
    match extension_dot_of(s) {
        Some(p) => Some(s.subrange(p + 1, s.len() as int)),
        None => None,
    }
}

/// `s` without its known extension and the dot before it.
pub open spec fn without_extension(s: Seq<char>) -> Seq<char> {
    match extension_dot_of(s) {
        Some(p) => s.subrange(0, p),
        None => s,
    }
}

/// A text has one last dot.
pub proof fn lemma_last_dot_unique(s: Seq<char>, p: int, q: int)
    requires
        is_last_dot(s, p),
        is_last_dot(s, q),
    ensures
        p == q,
{
    if p < q {
        assert(s[q] != '.');
    }
    if q < p {
        assert(s[p] != '.');
    }
}

/// The file extension of `file_name` (the text after its last `.`) when it is a known one.
pub fn get_extension(file_name: &str) -> (r: Option<String>)
    ensures
        r matches Some(e) ==> extension_of(file_name@) == Some(e@),
        r is None ==> extension_of(file_name@) is None,
{
    let cs = chars_of(file_name);
    let n = cs.len();
    match extension_dot(&cs) {
        Some(p) => {
            proof {
                let q = choose|q: int| has_extension_at(file_name@, q);
                lemma_last_dot_unique(file_name@, p as int, q);
            }
            assert(p < n);
            Some(string_of(&slice_of(&cs, p + 1, n)))
        },
        None => None,
    }
}

/// `file_name` without its known extension and the dot before it.
pub fn remove_extension(file_name: &str) -> (r: String)
    ensures
        r@ == without_extension(file_name@),
{
    let cs = chars_of(file_name);
    match extension_dot(&cs) {
        Some(p) => {
            proof {
                let q = choose|q: int| has_extension_at(file_name@, q);
                lemma_last_dot_unique(file_name@, p as int, q);
            }
            string_of(&slice_of(&cs, 0, p))
        },
        None => file_name.to_owned(),
    }
}

} // verus!
