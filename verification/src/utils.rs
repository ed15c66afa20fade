//! String pre-processing applied before tokenisation.
use vstd::prelude::*;

use crate::text::{chars_of, matches_at, occurs_at, occurs_in, string_of};

verus! {

/// `s` with every occurrence of `p` taken out, scanning left to right without overlap
/// (`str::replace(p, "")`); an empty `p` changes nothing.
pub open spec fn remove_all(s: Seq<char>, p: Seq<char>) -> Seq<char>
    decreases s.len(),
{
    if p.len() == 0 || s.len() == 0 {
        s
    } else if occurs_at(s, p, 0) {
        remove_all(s.subrange(p.len() as int, s.len() as int), p)
    } else {
        seq![s[0]] + remove_all(s.drop_first(), p)
    }
}

/// An ignored entry written as a list, like `['foo', "bar"]`.
pub open spec fn is_list_form(item: Seq<char>) -> bool {
    &&& item.len() >= 2
    &&& item[0] == '['
    &&& (item[1] == '\'' || item[1] == '"')
    &&& item.last() == ']'
}

/// Removes from `r` each quoted text of the list entry `item`, scanning it from `i` while
/// `in_str` tells whether a quote is open and `cur` holds the quoted text so far.
pub open spec fn strip_quoted(r: Seq<char>, item: Seq<char>, i: int, in_str: bool, cur: Seq<char>) -> Seq<char>
    decreases item.len() - i,
{
    if i >= item.len() {
        r
    } else if item[i] == '\'' || item[i] == '"' {
        if in_str {
            strip_quoted(remove_all(r, cur), item, i + 1, false, Seq::empty())
        } else {
            strip_quoted(r, item, i + 1, true, cur)
        }
    } else if in_str {
        strip_quoted(r, item, i + 1, true, cur.push(item[i]))
    } else {
        strip_quoted(r, item, i + 1, false, cur)
    }
}

/// `r` with one ignored entry taken out.
pub open spec fn remove_one(r: Seq<char>, item: Seq<char>) -> Seq<char> {
    if is_list_form(item) {
        strip_quoted(r, item, 0, false, Seq::empty())
    } else {
        remove_all(r, item)
    }
}

/// `r` with the ignored entries `items[k..]` taken out, in order.
pub open spec fn remove_from(r: Seq<char>, items: Seq<Seq<char>>, k: int) -> Seq<char>
    decreases items.len() - k,
{
    if k >= items.len() {
        r
    } else {
        remove_from(remove_one(r, items[k]), items, k + 1)
    }
}

/// `s` with every occurrence of `p` taken out.
pub fn remove_all_chars(s: &Vec<char>, p: &Vec<char>) -> (r: Vec<char>)
    ensures
        r@ == remove_all(s@, p@),
{
    let n = s.len();
    let m = p.len();
    let mut out: Vec<char> = Vec::new();
    if m == 0 {
        let mut k: usize = 0;
        while k < n
            invariant
                n == s@.len(),
                0 <= k <= n,
                out@ == s@.take(k as int),
            decreases n - k,
        {
            out.push(s[k]);
            assert(s@.take(k + 1) =~= s@.take(k as int).push(s@[k as int]));
            k = k + 1;
        }
        assert(s@.take(n as int) =~= s@);
        return out;
    }
    let mut i: usize = 0;
    assert(s@.subrange(0, n as int) =~= s@);
    while i < n
        invariant
            n == s@.len(),
            m == p@.len(),
            m > 0,
            0 <= i <= n,
            out@ + remove_all(s@.subrange(i as int, n as int), p@) == remove_all(s@, p@),
        decreases n - i,
    {
        let ghost rest = s@.subrange(i as int, n as int);
        if matches_at(s, p, i) {
            assert(occurs_at(rest, p@, 0)) by {
                assert(rest.subrange(0, m as int) =~= s@.subrange(i as int, i + m));
            }
            assert(rest.subrange(m as int, rest.len() as int) =~= s@.subrange(i + m, n as int));
            i = i + m;
        } else {
            assert(!occurs_at(rest, p@, 0)) by {
                if occurs_at(rest, p@, 0) {
                    assert(rest.subrange(0, m as int) =~= s@.subrange(i as int, i + m));
                }
            }
            assert(rest.drop_first() =~= s@.subrange(i + 1, n as int));
            let ghost before = out@;
            out.push(s[i]);
            assert(out@ + remove_all(s@.subrange(i + 1, n as int), p@) =~= before + (seq![rest[0]] + remove_all(rest.drop_first(), p@)));
            i = i + 1;
        }
    }
    assert(remove_all(s@.subrange(n as int, n as int), p@) =~= Seq::<char>::empty());
    assert(out@ + Seq::<char>::empty() =~= out@);
    out
}

/// Takes out of `r` the quoted texts of a list-form entry.
fn strip_quoted_chars(r: Vec<char>, item: &Vec<char>) -> (out: Vec<char>)
    ensures
        out@ == strip_quoted(r@, item@, 0, false, Seq::empty()),
{
    let mut result = r;
    let mut in_str = false;
    let mut current: Vec<char> = Vec::new();
    let n = item.len();
    let mut i: usize = 0;
    while i < n
        invariant
            n == item@.len(),
            0 <= i <= n,
            strip_quoted(result@, item@, i as int, in_str, current@) == strip_quoted(r@, item@, 0, false, Seq::empty()),
        decreases n - i,
    {
        let c = item[i];
        if c == '\'' || c == '"' {
            if in_str {
                result = remove_all_chars(&result, &current);
                current = Vec::new();
                assert(current@ =~= Seq::<char>::empty());
            }
            in_str = !in_str;
        } else if in_str {
            current.push(c);
        }
        i = i + 1;
    }
    result
}

/// Removes all strings in `ignored_str` from `working_string`, also handling list syntax such
/// as `['foo', 'bar']`.
pub fn remove_ignored_string(working_string: &str, ignored_str: &[String]) -> (r: String)
    ensures
        r@ == remove_from(working_string@, ignored_str@.map_values(|s: String| s@), 0),
{
    let ghost items = ignored_str@.map_values(|s: String| s@);
    let mut result = chars_of(working_string);
    let n = ignored_str.len();
    let mut k: usize = 0;
    while k < n
        invariant
            n == ignored_str@.len(),
            items == ignored_str@.map_values(|s: String| s@),
            0 <= k <= n,
            remove_from(result@, items, k as int) == remove_from(working_string@, items, 0),
        decreases n - k,
    {
        let item = chars_of(ignored_str[k].as_str());
        assert(item@ == items[k as int]);
        let list_form = item.len() >= 2 && item[0] == '[' && (item[1] == '\'' || item[1] == '"')
            && item[item.len() - 1] == ']';
        if list_form {
            result = strip_quoted_chars(result, &item);
        } else {
            result = remove_all_chars(&result, &item);
        }
        k = k + 1;
    }
    string_of(&result)
}


/// Taking out a text that does not occur changes nothing.
pub proof fn law_remove_all_absent(s: Seq<char>, p: Seq<char>)
    requires
        !occurs_in(s, p),
    ensures
        remove_all(s, p) == s,
    decreases s.len(),
{
    if p.len() > 0 && s.len() > 0 {
        assert(!occurs_at(s, p, 0));
        assert(!occurs_in(s.drop_first(), p)) by {
            if occurs_in(s.drop_first(), p) {
                let i = choose|i: int| occurs_at(s.drop_first(), p, i);
                assert(s.subrange(i + 1, i + 1 + p.len()) =~= s.drop_first().subrange(i, i + p.len()));
                assert(occurs_at(s, p, i + 1));
            }
        }
        law_remove_all_absent(s.drop_first(), p);
        assert(seq![s[0]] + s.drop_first() =~= s);
    }
}

/// A text holding none of the ignored strings (none of them written as a list) comes back
/// unchanged.
pub proof fn law_nothing_to_remove(s: Seq<char>, items: Seq<Seq<char>>, k: int)
    requires
        0 <= k,
        forall|j: int| k <= j < items.len() ==> !is_list_form(#[trigger] items[j]) && !occurs_in(s, items[j]),
    ensures
        remove_from(s, items, k) == s,
    decreases items.len() - k,
{
    if k < items.len() {
        law_remove_all_absent(s, items[k]);
        law_nothing_to_remove(s, items, k + 1);
    }
}

} // verus!
