//! Character-level helpers shared by the parsers: whitespace, runs of a
//! character class, trimming, and conversions between `str`, `String` and
//! `Vec<char>`.
use vstd::prelude::*;

verus! {

/// A `Result` seen through the views of its two sides.
pub open spec fn res_view<T: View, E: View>(r: Result<T, E>) -> Result<T::V, E::V> {
    match r {
        Ok(t) => Ok(t@),
        Err(e) => Err(e@),
    }
}

/// Unicode `White_Space`, the set that `str::trim` and `char::is_whitespace` use.
pub open spec fn is_ws(c: char) -> bool {
    ||| c == ' '
    ||| c == '\t'
    ||| c == '\n'
    ||| c == '\u{0B}'
    ||| c == '\u{0C}'
    ||| c == '\r'
    ||| c == '\u{85}'
    ||| c == '\u{A0}'
    ||| c == '\u{1680}'
    ||| ('\u{2000}' <= c && c <= '\u{200A}')
    ||| c == '\u{2028}'
    ||| c == '\u{2029}'
    ||| c == '\u{202F}'
    ||| c == '\u{205F}'
    ||| c == '\u{3000}'
}

pub fn char_is_ws(c: char) -> (r: bool)
    ensures
        r == is_ws(c),
{
    c == ' ' || c == '\t' || c == '\n' || c == '\u{0B}' || c == '\u{0C}' || c == '\r' || c
        == '\u{85}' || c == '\u{A0}' || c == '\u{1680}' || ('\u{2000}' <= c && c <= '\u{200A}')
        || c == '\u{2028}' || c == '\u{2029}' || c == '\u{202F}' || c == '\u{205F}' || c
        == '\u{3000}'
}

/// A quote that may surround a literal: `'` or `"`.
pub open spec fn is_quote(c: char) -> bool {
    c == '\'' || c == '"'
}

/// An optional quote at `i`: the index after it.
pub open spec fn after_quote(t: Seq<char>, i: int) -> int {
    if 0 <= i < t.len() && is_quote(t[i]) {
        i + 1
    } else {
        i
    }
}

/// Skips an optional quote at `i`.
pub fn skip_quote(t: &Vec<char>, i: usize) -> (r: usize)
    requires
        i <= t.len(),
    ensures
        r == after_quote(t@, i as int),
        r <= t.len(),
{
    if i < t.len() && (t[i] == '\'' || t[i] == '"') {
        i + 1
    } else {
        i
    }
}

/// The character classes that the scanners of this crate walk over.
#[derive(Clone, Copy, Debug, PartialEq, Eq)]
pub enum CharClass {
    /// Whitespace.
    Space,
    /// Anything but whitespace.
    NonSpace,
    /// Anything but whitespace and quotes.
    Bare,
    /// Anything but whitespace and `:`.
    Name,
    /// Anything but whitespace, `:` and `=`.
    TypeName,
    /// Anything but quotes.
    Unquoted,
    /// What may follow `$` in a reference: no whitespace, quote, `;`, `,` or `}`.
    RefName,
    /// An ASCII decimal digit.
    Digit,
    /// Anything but `)` and quotes.
    Argument,
}

pub open spec fn in_class(c: char, k: CharClass) -> bool {
    match k {
        CharClass::Space => is_ws(c),
        CharClass::NonSpace => !is_ws(c),
        CharClass::Bare => !is_ws(c) && !is_quote(c),
        CharClass::Name => !is_ws(c) && c != ':',
        CharClass::TypeName => !is_ws(c) && c != ':' && c != '=',
        CharClass::Unquoted => !is_quote(c),
        CharClass::RefName => !is_ws(c) && !is_quote(c) && c != ';' && c != ',' && c != '}',
        CharClass::Digit => '0' <= c && c <= '9',
        CharClass::Argument => c != ')' && !is_quote(c),
    }
}

pub fn char_in_class(c: char, k: CharClass) -> (r: bool)
    ensures
        r == in_class(c, k),
{
    match k {
        CharClass::Space => char_is_ws(c),
        CharClass::NonSpace => !char_is_ws(c),
        CharClass::Bare => !char_is_ws(c) && c != '\'' && c != '"',
        CharClass::Name => !char_is_ws(c) && c != ':',
        CharClass::TypeName => !char_is_ws(c) && c != ':' && c != '=',
        CharClass::Unquoted => c != '\'' && c != '"',
        CharClass::RefName => !char_is_ws(c) && c != '\'' && c != '"' && c != ';' && c != ','
            && c != '}',
        CharClass::Digit => '0' <= c && c <= '9',
        CharClass::Argument => c != ')' && c != '\'' && c != '"',
    }
}

/// End of the longest run of class `k` that starts at `i`.
pub open spec fn run_end(s: Seq<char>, i: int, k: CharClass) -> int
    decreases s.len() - i,
{
    if 0 <= i < s.len() && in_class(s[i], k) {
        run_end(s, i + 1, k)
    } else {
        i
    }
}

pub proof fn lemma_run_end_bounds(s: Seq<char>, i: int, k: CharClass)
    requires
        0 <= i <= s.len(),
    ensures
        i <= run_end(s, i, k) <= s.len(),
        forall|j: int| i <= j < run_end(s, i, k) ==> in_class(#[trigger] s[j], k),
        run_end(s, i, k) < s.len() ==> !in_class(s[run_end(s, i, k)], k),
    decreases s.len() - i,
{
    if i < s.len() && in_class(s[i], k) {
        lemma_run_end_bounds(s, i + 1, k);
    }
}

/// A run that is known to stop at `e`.
pub proof fn lemma_run_end_exact(s: Seq<char>, i: int, e: int, k: CharClass)
    requires
        0 <= i <= e <= s.len(),
        forall|j: int| i <= j < e ==> in_class(#[trigger] s[j], k),
        e == s.len() || !in_class(s[e], k),
    ensures
        run_end(s, i, k) == e,
    decreases e - i,
{
    if i < e {
        lemma_run_end_exact(s, i + 1, e, k);
    }
}

/// Text that neither begins nor ends with whitespace is its own trim.
pub proof fn lemma_trim_unchanged(s: Seq<char>)
    requires
        s.len() > 0,
        !is_ws(s[0]),
        !is_ws(s[s.len() - 1]),
    ensures
        trim(s) == s,
{
    assert(run_end(s, 0, CharClass::Space) == 0);
    assert(skip_ws_back(s, s.len() as int) == s.len());
    assert(s.subrange(0, s.len() as int) =~= s);
}

/// The end of the run of class `k` that starts at `i`.
pub fn scan(v: &Vec<char>, i: usize, k: CharClass) -> (r: usize)
    requires
        i <= v.len(),
    ensures
        r == run_end(v@, i as int, k),
        i <= r <= v.len(),
{
    proof {
        lemma_run_end_bounds(v@, i as int, k);
    }
    let mut j = i;
    while j < v.len() && char_in_class(v[j], k)
        invariant
            i <= j <= v.len(),
            run_end(v@, j as int, k) == run_end(v@, i as int, k),
        decreases v.len() - j,
    {
        j = j + 1;
    }
    j
}

/// Start of the whitespace that ends just before index `hi`.
pub open spec fn skip_ws_back(s: Seq<char>, hi: int) -> int
    decreases hi,
{
    if 0 < hi <= s.len() && is_ws(s[hi - 1]) {
        skip_ws_back(s, hi - 1)
    } else {
        hi
    }
}

pub proof fn lemma_skip_ws_back_bounds(s: Seq<char>, hi: int)
    requires
        0 <= hi <= s.len(),
    ensures
        0 <= skip_ws_back(s, hi) <= hi,
        forall|j: int| skip_ws_back(s, hi) <= j < hi ==> is_ws(#[trigger] s[j]),
        skip_ws_back(s, hi) > 0 ==> !is_ws(s[skip_ws_back(s, hi) - 1]),
    decreases hi,
{
    if 0 < hi && is_ws(s[hi - 1]) {
        lemma_skip_ws_back_bounds(s, hi - 1);
    }
}

/// `s` without leading and trailing whitespace.
pub open spec fn trim(s: Seq<char>) -> Seq<char> {
    let lo = run_end(s, 0, CharClass::Space);
    let hi = skip_ws_back(s, s.len() as int);
    if lo < hi {
        s.subrange(lo, hi)
    } else {
        Seq::empty()
    }
}

/// The characters of `v` from `lo` up to `hi`.
pub fn slice(v: &Vec<char>, lo: usize, hi: usize) -> (r: Vec<char>)
    requires
        lo <= hi <= v.len(),
    ensures
        r@ == v@.subrange(lo as int, hi as int),
{
    let mut r: Vec<char> = Vec::new();
    let mut i = lo;
    while i < hi
        invariant
            lo <= i <= hi <= v.len(),
            r@ == v@.subrange(lo as int, i as int),
        decreases hi - i,
    {
        r.push(v[i]);
        assert(v@.subrange(lo as int, i + 1) =~= v@.subrange(lo as int, i as int).push(v@[i as int]));
        i = i + 1;
    }
    r
}

/// `v` without leading and trailing whitespace.
pub fn trimmed(v: &Vec<char>) -> (r: Vec<char>)
    ensures
        r@ == trim(v@),
{
    let lo = scan(v, 0, CharClass::Space);
    let mut hi = v.len();
    while hi > 0 && char_is_ws(v[hi - 1])
        invariant
            hi <= v.len(),
            skip_ws_back(v@, hi as int) == skip_ws_back(v@, v@.len() as int),
        decreases hi,
    {
        hi = hi - 1;
    }
    if lo < hi {
        slice(v, lo, hi)
    } else {
        Vec::new()
    }
}

/// Whether `s` begins with `p`.
pub open spec fn starts_with(s: Seq<char>, p: Seq<char>) -> bool {
    p.len() <= s.len() && s.subrange(0, p.len() as int) == p
}

pub fn has_prefix(v: &Vec<char>, p: &Vec<char>) -> (r: bool)
    ensures
        r == starts_with(v@, p@),
{
    if p.len() > v.len() {
        return false;
    }
    let mut i: usize = 0;
    while i < p.len()
        invariant
            p.len() <= v.len(),
            i <= p.len(),
            forall|j: int| 0 <= j < i ==> v@[j] == p@[j],
        decreases p.len() - i,
    {
        if v[i] != p[i] {
            assert(v@.subrange(0, p.len() as int)[i as int] != p@[i as int]);
            return false;
        }
        i = i + 1;
    }
    assert(v@.subrange(0, p.len() as int) =~= p@);
    true
}

pub fn same_chars(a: &Vec<char>, b: &Vec<char>) -> (r: bool)
    ensures
        r == (a@ == b@),
{
    if a.len() != b.len() {
        return false;
    }
    let r = has_prefix(a, b);
    proof {
        assert(a@.subrange(0, b@.len() as int) =~= a@);
    }
    r
}

/// `a` followed by `b`.
pub fn concat(a: &Vec<char>, b: &Vec<char>) -> (r: Vec<char>)
    ensures
        r@ == a@ + b@,
{
    let mut r = slice(a, 0, a.len());
    let mut i: usize = 0;
    while i < b.len()
        invariant
            i <= b.len(),
            r@ == a@ + b@.take(i as int),
        decreases b.len() - i,
    {
        r.push(b[i]);
        assert(b@.take(i as int + 1) =~= b@.take(i as int).push(b@[i as int]));
        assert(a@ + b@.take(i as int + 1) =~= (a@ + b@.take(i as int)).push(b@[i as int]));
        i = i + 1;
    }
    assert(a@.subrange(0, a@.len() as int) =~= a@);
    assert(b@.take(i as int) =~= b@);
    r
}

/// The characters of a decimal digit.
pub open spec fn digit_char(d: int) -> char {
    if d == 0 { '0' }
    else if d == 1 { '1' }
    else if d == 2 { '2' }
    else if d == 3 { '3' }
    else if d == 4 { '4' }
    else if d == 5 { '5' }
    else if d == 6 { '6' }
    else if d == 7 { '7' }
    else if d == 8 { '8' }
    else { '9' }
}

/// The value of a decimal digit character.
pub open spec fn digit_value(c: char) -> int {
    c as u32 - '0' as u32
}

/// Decimal digits of `n`, without leading zeros.
pub open spec fn nat_text(n: nat) -> Seq<char>
    decreases n,
{
    if n < 10 {
        seq![digit_char(n as int)]
    } else {
        nat_text(n / 10).push(digit_char((n % 10) as int))
    }
}

/// Decimal text of `n`, with a leading `-` when negative.
pub open spec fn int_text(n: int) -> Seq<char> {
    if n < 0 {
        seq!['-'] + nat_text((-n) as nat)
    } else {
        nat_text(n as nat)
    }
}

fn digit_of(d: u64) -> (c: char)
    requires
        d < 10,
    ensures
        c == digit_char(d as int),
{
    if d == 0 { '0' }
    else if d == 1 { '1' }
    else if d == 2 { '2' }
    else if d == 3 { '3' }
    else if d == 4 { '4' }
    else if d == 5 { '5' }
    else if d == 6 { '6' }
    else if d == 7 { '7' }
    else if d == 8 { '8' }
    else { '9' }
}

/// Decimal digits of `n`.
pub fn u64_text(n: u64) -> (r: Vec<char>)
    ensures
        r@ == nat_text(n as nat),
    decreases n,
{
    if n < 10 {
        let r = vec![digit_of(n)];
        assert(r@ =~= seq![digit_char(n as int)]);
        r
    } else {
        let mut r = u64_text(n / 10);
        r.push(digit_of(n % 10));
        r
    }
}

/// Decimal text of `n`.
pub fn i32_text(n: i32) -> (r: Vec<char>)
    ensures
        r@ == int_text(n as int),
{
    if n < 0 {
        let m: u64 = (0 - (n as i64)) as u64;
        let d = u64_text(m);
        let mut r = vec!['-'];
        assert(r@ =~= seq!['-']);
        let r = concat(&r, &d);
        r
    } else {
        u64_text(n as u64)
    }
}

/// Relies on `String::push`: appends one character.
#[verifier::external_body]
fn push_char(s: &mut String, c: char)
    ensures
        final(s)@ == old(s)@.push(c),
{
    s.push(c);
}

/// The characters of `s`, in order.
pub fn chars_of(s: &str) -> (r: Vec<char>)
    ensures
        r@ == s@,
{
    let mut r: Vec<char> = Vec::new();
    for c in it: s.chars()
        invariant
            r@ == it.seq().take(it.index() as int),
    {
        r.push(c);
    }
    r
}

/// A `String` holding the characters of `v`.
pub fn string_of(v: &Vec<char>) -> (r: String)
    ensures
        r@ == v@,
{
    let mut r = String::new();
    let mut i: usize = 0;
    while i < v.len()
        invariant
            i <= v.len(),
            r@ == v@.take(i as int),
        decreases v.len() - i,
    {
        push_char(&mut r, v[i]);
        assert(v@.take(i as int + 1) =~= v@.take(i as int).push(v@[i as int]));
        i = i + 1;
    }
    assert(v@.take(i as int) =~= v@);
    r
}

/// `done` with line `l` added when `l` is not blank.
pub open spec fn keep_line(done: Seq<Seq<char>>, l: Seq<char>) -> Seq<Seq<char>> {
    if trim(l).len() > 0 {
        done.push(l)
    } else {
        done
    }
}

/// Splitting `t` at each `\n` from index `i` on; the open line began at
/// `start`; blank lines are dropped.
pub open spec fn lines_from(t: Seq<char>, i: int, start: int, done: Seq<Seq<char>>) -> Seq<
    Seq<char>,
>
    decreases t.len() - i,
{
    if 0 <= i < t.len() {
        if t[i] == '\n' {
            lines_from(t, i + 1, i + 1, keep_line(done, t.subrange(start, i)))
        } else {
            lines_from(t, i + 1, start, done)
        }
    } else {
        keep_line(done, t.subrange(start, t.len() as int))
    }
}

/// The lines of `s` after trimming it, without blank lines.
pub open spec fn source_lines(s: Seq<char>) -> Seq<Seq<char>> {
    lines_from(trim(s), 0, 0, Seq::empty())
}

pub open spec fn lines_view(v: Seq<&str>) -> Seq<Seq<char>> {
    v.map_values(|l: &str| l@)
}

/// The lines of `s`; see [`source_lines`].
pub fn split_source_lines<'a>(s: &'a str) -> (r: Vec<&'a str>)
    ensures
        lines_view(r@) == source_lines(s@),
{
    let v = chars_of(s);
    let lo = scan(&v, 0, CharClass::Space);
    let mut hi = v.len();
    while hi > 0 && char_is_ws(v[hi - 1])
        invariant
            hi <= v.len(),
            skip_ws_back(v@, hi as int) == skip_ws_back(v@, v@.len() as int),
        decreases hi,
    {
        hi = hi - 1;
    }
    let mut done: Vec<&'a str> = Vec::new();
    if lo >= hi {
        assert(trim(v@) =~= Seq::<char>::empty());
        assert(lines_view(done@) =~= Seq::<Seq<char>>::empty());
        assert(keep_line(Seq::empty(), Seq::<char>::empty().subrange(0, 0)) =~= Seq::<Seq<char>>::empty()) by {
            assert(trim(Seq::<char>::empty()) =~= Seq::<char>::empty());
        }
        return done;
    }
    let t = slice(&v, lo, hi);
    assert(t@ == trim(v@));
    let mut start: usize = 0;
    let mut i: usize = 0;
    assert(lines_view(done@) =~= Seq::<Seq<char>>::empty());
    while i < t.len()
        invariant
            lo < hi <= v.len(),
            v@ == s@,
            t@ == v@.subrange(lo as int, hi as int),
            t@ == trim(s@),
            start <= i <= t.len(),
            lines_from(t@, i as int, start as int, lines_view(done@)) == source_lines(s@),
        decreases t.len() - i,
    {
        if t[i] == '\n' {
            let line = slice(&t, start, i);
            let tl = trimmed(&line);
            if tl.len() > 0 {
                let piece = s.substring_char(lo + start, lo + i);
                assert(piece@ =~= t@.subrange(start as int, i as int));
                let ghost before = lines_view(done@);
                done.push(piece);
                assert(lines_view(done@) =~= before.push(piece@));
            }
            start = i + 1;
        }
        i = i + 1;
    }
    let line = slice(&t, start, t.len());
    let tl = trimmed(&line);
    if tl.len() > 0 {
        let piece = s.substring_char(lo + start, lo + t.len());
        assert(piece@ =~= t@.subrange(start as int, t@.len() as int));
        let ghost before = lines_view(done@);
        done.push(piece);
        assert(lines_view(done@) =~= before.push(piece@));
    }
    done
}

} // verus!
