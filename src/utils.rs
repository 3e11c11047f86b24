//! Source clean-up helpers: removing `#` comments, and spotting a call of
//! `input(...)`.
use vstd::prelude::*;

use crate::text::{
    chars_of, string_of, trim, trimmed, concat, slice, scan, run_end, after_quote, skip_quote,
    is_quote, CharClass,
};

verus! {

/// Whether `pat` occurs in `s` at index `i`.
pub open spec fn occurs_at(s: Seq<char>, pat: Seq<char>, i: int) -> bool {
    0 <= i && i + pat.len() <= s.len() && s.subrange(i, i + pat.len()) == pat
}

/// Replacing, from index `i` on, each occurrence of `pat` by `rep`, scanning
/// left to right without overlap; `acc` holds what is done.
pub open spec fn replace_from(
    s: Seq<char>,
    pat: Seq<char>,
    rep: Seq<char>,
    i: int,
    acc: Seq<char>,
) -> Seq<char>
    decreases s.len() - i,
{
    if 0 <= i < s.len() {
        if pat.len() > 0 && occurs_at(s, pat, i) {
            replace_from(s, pat, rep, i + pat.len(), acc + rep)
        } else {
            replace_from(s, pat, rep, i + 1, acc.push(s[i]))
        }
    } else {
        acc
    }
}

/// `s` with each occurrence of `pat` replaced by `rep`.
pub open spec fn replace_all(s: Seq<char>, pat: Seq<char>, rep: Seq<char>) -> Seq<char> {
    replace_from(s, pat, rep, 0, Seq::empty())
}

fn occurs_at_exec(v: &Vec<char>, pat: &Vec<char>, i: usize) -> (r: bool)
    requires
        i <= v.len(),
    ensures
        r == occurs_at(v@, pat@, i as int),
{
    if pat.len() > v.len() - i {
        return false;
    }
    let mut k: usize = 0;
    while k < pat.len()
        invariant
            i + pat.len() <= v.len(),
            k <= pat.len(),
            forall|j: int| 0 <= j < k ==> v@[i + j] == pat@[j],
        decreases pat.len() - k,
    {
        if v[i + k] != pat[k] {
            assert(v@.subrange(i as int, i + pat.len())[k as int] != pat@[k as int]);
            return false;
        }
        k = k + 1;
    }
    assert(v@.subrange(i as int, i + pat.len()) =~= pat@);
    true
}

/// `v` with each occurrence of `pat` replaced by `rep`; see [`replace_all`].
pub fn replace_chars(v: &Vec<char>, pat: &Vec<char>, rep: &Vec<char>) -> (r: Vec<char>)
    ensures
        r@ == replace_all(v@, pat@, rep@),
{
    let mut acc: Vec<char> = Vec::new();
    let mut i: usize = 0;
    while i < v.len()
        invariant
            i <= v.len(),
            replace_from(v@, pat@, rep@, i as int, acc@) == replace_all(v@, pat@, rep@),
        decreases v.len() - i,
    {
        if pat.len() > 0 && occurs_at_exec(v, pat, i) {
            acc = concat(&acc, rep);
            i = i + pat.len();
        } else {
            acc.push(v[i]);
            i = i + 1;
        }
    }
    acc
}

/// The first `#` at or after `k` that no backslash precedes, or `-1`.
pub open spec fn comment_from(s: Seq<char>, k: int) -> int
    decreases s.len() - k,
{
    if 0 <= k < s.len() {
        if s[k] == '#' && (k == 0 || s[k - 1] != '\\') {
            k
        } else {
            comment_from(s, k + 1)
        }
    } else {
        -1
    }
}

/// The first `\n` at or after `k`, or the length.
pub open spec fn line_end(s: Seq<char>, k: int) -> int
    decreases s.len() - k,
{
    if 0 <= k < s.len() {
        if s[k] == '\n' {
            k
        } else {
            line_end(s, k + 1)
        }
    } else {
        s.len() as int
    }
}

pub open spec fn escaped_hash() -> Seq<char> {
    seq!['\\', '#']
}

/// The comment text that is removed: from the character before the first
/// unescaped `#` (from the `#` itself at the very start) to the end of its
/// line.
pub open spec fn comment_text(s: Seq<char>) -> Seq<char> {
    let k = comment_from(s, 0);
    let p = if k == 0 {
        0
    } else {
        k - 1
    };
    s.subrange(p, line_end(s, k + 1))
}

/// Removing comments: each occurrence of the first comment's text goes,
/// `\#` becomes `#`, and the result is trimmed.
pub open spec fn strip_comments(s: Seq<char>) -> Seq<char> {
    if comment_from(s, 0) >= 0 {
        trim(replace_all(replace_all(s, comment_text(s), Seq::empty()), escaped_hash(), seq!['#']))
    } else {
        replace_all(trim(s), escaped_hash(), seq!['#'])
    }
}

/// Removes a `#` comment; `\#` stands for a literal `#`.
pub fn remove_comments(s: &str) -> (r: String)
    ensures
        r@ == strip_comments(s@),
{
    let v = chars_of(s);
    let esc = vec!['\\', '#'];
    let hash = vec!['#'];
    assert(esc@ =~= escaped_hash());
    assert(hash@ =~= seq!['#']);
    let mut k: usize = 0;
    while k < v.len() && !(v[k] == '#' && (k == 0 || v[k - 1] != '\\'))
        invariant
            k <= v.len(),
            comment_from(v@, k as int) == comment_from(v@, 0),
        decreases v.len() - k,
    {
        k = k + 1;
    }
    if k < v.len() {
        let p = if k == 0 { 0 } else { k - 1 };
        let mut e = k + 1;
        while e < v.len() && v[e] != '\n'
            invariant
                k < e <= v.len(),
                line_end(v@, e as int) == line_end(v@, k + 1),
            decreases v.len() - e,
        {
            e = e + 1;
        }
        let m = slice(&v, p, e);
        let empty: Vec<char> = Vec::new();
        assert(empty@ =~= Seq::<char>::empty());
        let a = replace_chars(&v, &m, &empty);
        let b = replace_chars(&a, &esc, &hash);
        string_of(&trimmed(&b))
    } else {
        let t = trimmed(&v);
        string_of(&replace_chars(&t, &esc, &hash))
    }
}

pub open spec fn input_word() -> Seq<char> {
    seq!['i', 'n', 'p', 'u', 't', '(']
}

/// Whether a call `input(text)` starts at index `i`: the text may be
/// quoted, holds at least one character, and no `)` or quote.
pub open spec fn input_at(s: Seq<char>, i: int) -> bool {
    let j = after_quote(s, i + 6);
    let k = run_end(s, j, CharClass::Argument);
    &&& occurs_at(s, input_word(), i)
    &&& k > j
    &&& ((k < s.len() && s[k] == ')') || (k + 1 < s.len() && is_quote(s[k]) && s[k + 1] == ')'))
}

/// Whether `s` holds a call `input(text)`.
pub fn is_input_fn(s: &str) -> (r: bool)
    ensures
        r == exists|i: int| 0 <= i < trim(s@).len() && #[trigger] input_at(trim(s@), i),
{
    let t = trimmed(&chars_of(s));
    let w = vec!['i', 'n', 'p', 'u', 't', '('];
    assert(w@ =~= input_word());
    let mut i: usize = 0;
    while i < t.len()
        invariant
            i <= t.len(),
            w@ == input_word(),
            t@ == trim(s@),
            forall|j: int| 0 <= j < i ==> !#[trigger] input_at(t@, j),
        decreases t.len() - i,
    {
        if occurs_at_exec(&t, &w, i) {
            let j = skip_quote(&t, i + 6);
            let k = scan(&t, j, CharClass::Argument);
            if k > j && ((k < t.len() && t[k] == ')') || (t.len() > 0 && k < t.len() - 1 && (t[k] == '\'' || t[k] == '"') && t[k + 1] == ')')) {
                assert(input_at(t@, i as int));
                return true;
            }
        }
        i = i + 1;
    }
    false
}

} // verus!
