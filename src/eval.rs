//! The arithmetic evaluator used for integer initialisers.
//!
//! An expression uses `+ - * /` (and `x` for `*`) with groups in `()` or
//! `[]`. Groups that hold no bracket are worked out first, left to right, in
//! one pass; then the expression is split on the first operator, in the
//! order `+`, `-`, `x`, `*`, `/`, that occurs in it, and the terms are folded
//! left to right with that operator. A term is a number, a group's value, or
//! an expression that is evaluated the same way. This is not the usual
//! precedence: `12 - 8 / 4 + 3` adds `12 - 8 / 4` and `3`.
//!
//! A group's value stands as a term of its own: it is not joined to digits
//! written next to it.
//!
//! Numbers are exact fractions of 128-bit integers: a result that leaves
//! that range is an error, as is a division by zero. Text with a letter or
//! `=` has no value (so `x`, a letter, never reaches the split). A group
//! whose inner group leaves an operator inside it, as in `((1 + 2) * 3)`,
//! has no value either, nor has a term that is no number and holds no
//! operator.
use vstd::prelude::*;

use crate::text::{
    chars_of, string_of, concat, is_ws, char_is_ws, run_end, scan, lemma_run_end_bounds,
    digit_value, CharClass,
};

verus! {

pub open spec fn i128_top() -> int {
    i128::MAX as int
}

/// Whether `x` lies in `[-i128::MAX, i128::MAX]`, a range closed under negation.
pub open spec fn fits(x: int) -> bool {
    -i128_top() <= x <= i128_top()
}

/// An exact fraction `num / den`.
#[derive(Clone, Copy, Debug, PartialEq, Eq)]
pub struct Number {
    pub num: i128,
    pub den: i128,
}

impl Number {
    /// A positive denominator; both parts in the symmetric range.
    pub open spec fn wf(&self) -> bool {
        &&& 0 < self.den
        &&& fits(self.num as int)
        &&& fits(self.den as int)
    }
}

/// Why an expression has no value.
#[derive(Clone, Copy, Debug, PartialEq, Eq)]
pub enum EvalFault {
    /// It holds a letter or `=`, an empty or malformed term, or a term with
    /// no operator that is no number.
    Invalid,
    /// A number or an intermediate result leaves the 128-bit range.
    OutOfRange,
    /// A division by zero.
    DivisionByZero,
}

/// A piece of an expression: one character of its text, or the value of a
/// group that has been worked out.
#[derive(Clone, Copy, Debug)]
pub enum Piece {
    Ch(char),
    Num(Number),
}

/// The operator that a flattened expression is folded with.
#[derive(Clone, Copy, Debug, PartialEq, Eq)]
pub enum ArithOp {
    Add,
    Sub,
    Mul,
    Div,
}

pub open spec fn is_bad_char(c: char) -> bool {
    ('a' <= c && c <= 'z') || ('A' <= c && c <= 'Z') || c == '='
}

pub open spec fn piece_bad(x: Piece) -> bool {
    x matches Piece::Ch(c) && is_bad_char(c)
}

pub open spec fn piece_is(x: Piece, c: char) -> bool {
    x matches Piece::Ch(d) && d == c
}

pub open spec fn piece_open(x: Piece) -> bool {
    piece_is(x, '(') || piece_is(x, '[')
}

pub open spec fn piece_close(x: Piece) -> bool {
    piece_is(x, ')') || piece_is(x, ']')
}

pub open spec fn piece_bracket(x: Piece) -> bool {
    piece_open(x) || piece_close(x)
}

pub open spec fn piece_space(x: Piece) -> bool {
    x matches Piece::Ch(c) && is_ws(c)
}

/// Index of the first bracket at or after `i`, or the length.
pub open spec fn next_bracket(p: Seq<Piece>, i: int) -> int
    decreases p.len() - i,
{
    if 0 <= i < p.len() {
        if piece_bracket(p[i]) {
            i
        } else {
            next_bracket(p, i + 1)
        }
    } else {
        p.len() as int
    }
}

/// Where the group that opens at `i` closes: the next bracket must close it
/// and the group must not be empty. `-1` when no such group opens at `i`.
pub open spec fn group_end(p: Seq<Piece>, i: int) -> int {
    if 0 <= i < p.len() && piece_open(p[i]) {
        let j = next_bracket(p, i + 1);
        if i + 1 < j < p.len() && piece_close(p[j]) {
            j
        } else {
            -1
        }
    } else {
        -1
    }
}

/// Index of the first non-space piece at or after `i`.
pub open spec fn lead_space(t: Seq<Piece>, i: int) -> int
    decreases t.len() - i,
{
    if 0 <= i < t.len() && piece_space(t[i]) {
        lead_space(t, i + 1)
    } else {
        i
    }
}

/// Start of the spaces that end just before `hi`.
pub open spec fn trail_space(t: Seq<Piece>, hi: int) -> int
    decreases hi,
{
    if 0 < hi <= t.len() && piece_space(t[hi - 1]) {
        trail_space(t, hi - 1)
    } else {
        hi
    }
}

/// `t` without leading and trailing whitespace.
pub open spec fn trim_pieces(t: Seq<Piece>) -> Seq<Piece> {
    let lo = lead_space(t, 0);
    let hi = trail_space(t, t.len() as int);
    if lo < hi {
        t.subrange(lo, hi)
    } else {
        Seq::empty()
    }
}

/// Splitting `q` at each `c`, from index `i` on, with `cur` the open term and
/// `done` the terms closed so far; each term is trimmed.
pub open spec fn split_from(
    q: Seq<Piece>,
    c: char,
    i: int,
    cur: Seq<Piece>,
    done: Seq<Seq<Piece>>,
) -> Seq<Seq<Piece>>
    decreases q.len() - i,
{
    if 0 <= i < q.len() {
        if piece_is(q[i], c) {
            split_from(q, c, i + 1, Seq::empty(), done.push(trim_pieces(cur)))
        } else {
            split_from(q, c, i + 1, cur.push(q[i]), done)
        }
    } else {
        done.push(trim_pieces(cur))
    }
}

/// The trimmed terms of `q` between occurrences of `c`.
pub open spec fn split_on(q: Seq<Piece>, c: char) -> Seq<Seq<Piece>> {
    split_from(q, c, 0, Seq::empty(), Seq::empty())
}

/// The first of `+`, `-`, `x`, `*`, `/` that splits `q` in more than one
/// term, with those terms; with none, `q` as the one term.
pub open spec fn split_terms(q: Seq<Piece>) -> (ArithOp, Seq<Seq<Piece>>) {
    if split_on(q, '+').len() > 1 {
        (ArithOp::Add, split_on(q, '+'))
    } else if split_on(q, '-').len() > 1 {
        (ArithOp::Sub, split_on(q, '-'))
    } else if split_on(q, 'x').len() > 1 {
        (ArithOp::Mul, split_on(q, 'x'))
    } else if split_on(q, '*').len() > 1 {
        (ArithOp::Mul, split_on(q, '*'))
    } else {
        (ArithOp::Div, split_on(q, '/'))
    }
}

/// The value of the decimal digits `s`.
pub open spec fn digits_value(s: Seq<char>) -> int
    decreases s.len(),
{
    if s.len() == 0 {
        0
    } else {
        digits_value(s.drop_last()) * 10 + digit_value(s.last())
    }
}

pub open spec fn pow10(n: nat) -> int
    decreases n,
{
    if n == 0 {
        1
    } else {
        10 * pow10((n - 1) as nat)
    }
}

pub open spec fn all_chars(t: Seq<Piece>) -> bool {
    forall|i: int| 0 <= i < t.len() ==> t[i] is Ch
}

pub open spec fn chars_of_pieces(t: Seq<Piece>) -> Seq<char> {
    t.map_values(|x: Piece| x->Ch_0)
}

/// The number `-d / 10^f` or `d / 10^f`, when both parts fit.
pub open spec fn make_number(neg: bool, d: int, f: nat) -> Result<Number, EvalFault> {
    if d > i128_top() || pow10(f) > i128_top() {
        Err(EvalFault::OutOfRange)
    } else {
        Ok(Number { num: (if neg { -d } else { d }) as i128, den: pow10(f) as i128 })
    }
}

/// A decimal literal: an optional `-`, digits with at most one `.`, and at
/// least one digit. `None` when `s` is no literal.
pub open spec fn literal_of_chars(s: Seq<char>) -> Option<Result<Number, EvalFault>> {
    let neg = s.len() > 0 && s[0] == '-';
    let start: int = if neg { 1 } else { 0 };
    let a = run_end(s, start, CharClass::Digit);
    if a == s.len() {
        if a > start {
            Some(make_number(neg, digits_value(s.subrange(start, a)), 0))
        } else {
            None
        }
    } else if s[a] == '.' {
        let b = run_end(s, a + 1, CharClass::Digit);
        if b == s.len() && (a > start || b > a + 1) {
            Some(
                make_number(
                    neg,
                    digits_value(s.subrange(start, a) + s.subrange(a + 1, b)),
                    (b - a - 1) as nat,
                ),
            )
        } else {
            None
        }
    } else {
        None
    }
}

pub open spec fn literal_of(t: Seq<Piece>) -> Option<Result<Number, EvalFault>> {
    if all_chars(t) {
        literal_of_chars(chars_of_pieces(t))
    } else {
        None
    }
}

/// A fraction from exact parts, when every part fits.
pub open spec fn checked(num: int, den: int) -> Result<Number, EvalFault> {
    if fits(num) && fits(den) {
        Ok(Number { num: num as i128, den: den as i128 })
    } else {
        Err(EvalFault::OutOfRange)
    }
}

/// `a op b` on fractions, with no reduction: the products that the rule
/// writes must fit, and dividing by zero fails.
pub open spec fn apply(op: ArithOp, a: Number, b: Number) -> Result<Number, EvalFault> {
    let (x, y, u, v) = (a.num as int, a.den as int, b.num as int, b.den as int);
    match op {
        ArithOp::Add => if fits(x * v) && fits(u * y) {
            checked(x * v + u * y, y * v)
        } else {
            Err(EvalFault::OutOfRange)
        },
        ArithOp::Sub => if fits(x * v) && fits(u * y) {
            checked(x * v - u * y, y * v)
        } else {
            Err(EvalFault::OutOfRange)
        },
        ArithOp::Mul => checked(x * u, y * v),
        ArithOp::Div => if u == 0 {
            Err(EvalFault::DivisionByZero)
        } else if u > 0 {
            checked(x * v, y * u)
        } else {
            checked(-(x * v), -(y * u))
        },
    }
}

/// The value of expression `p`; `fuel` bounds the depth of recursion.
pub open spec fn eval_spec(p: Seq<Piece>, fuel: nat) -> Result<Number, EvalFault>
    decreases fuel, 1nat, 0nat,
{
    if fuel == 0 || exists|i: int| 0 <= i < p.len() && piece_bad(#[trigger] p[i]) {
        Err(EvalFault::Invalid)
    } else {
        match resolve_from(p, 0, Seq::empty(), fuel) {
            Err(e) => Err(e),
            Ok(q) => {
                let (op, terms) = split_terms(q);
                if terms.len() == 0 {
                    Err(EvalFault::Invalid)
                } else {
                    match term_value(terms[0], terms.len() == 1 && terms[0].len() == p.len(), fuel) {
                        Err(e) => Err(e),
                        Ok(v) => fold_from(terms, op, 1, v, fuel),
                    }
                }
            },
        }
    }
}

/// Replacing each group of `p` from index `i` on by its value; `acc` holds
/// what is done.
pub open spec fn resolve_from(p: Seq<Piece>, i: int, acc: Seq<Piece>, fuel: nat) -> Result<
    Seq<Piece>,
    EvalFault,
>
    decreases fuel, 0nat, (p.len() - i) as nat,
{
    if fuel == 0 {
        Err(EvalFault::Invalid)
    } else if 0 <= i < p.len() {
        let j = group_end(p, i);
        if j > i {
            match eval_spec(p.subrange(i + 1, j), (fuel - 1) as nat) {
                Err(e) => Err(e),
                Ok(v) => resolve_from(p, j + 1, acc.push(Piece::Num(v)), fuel),
            }
        } else {
            resolve_from(p, i + 1, acc.push(p[i]), fuel)
        }
    } else {
        Ok(acc)
    }
}

/// The value of one term: a group's value, a literal, or the value of the
/// term as an expression. A term that is the whole expression, unchanged,
/// and neither of the first two has no value: evaluating it again would
/// repeat the same steps.
pub open spec fn term_value(t: Seq<Piece>, lone: bool, fuel: nat) -> Result<Number, EvalFault>
    decreases fuel, 0nat, 0nat,
{
    if t.len() == 1 && t[0] is Num {
        Ok(t[0]->Num_0)
    } else {
        match literal_of(t) {
            Some(r) => r,
            None => if lone || fuel == 0 {
                Err(EvalFault::Invalid)
            } else {
                eval_spec(t, (fuel - 1) as nat)
            },
        }
    }
}

/// Folding the terms from index `k` on into `acc`.
pub open spec fn fold_from(
    terms: Seq<Seq<Piece>>,
    op: ArithOp,
    k: int,
    acc: Number,
    fuel: nat,
) -> Result<Number, EvalFault>
    decreases fuel, 0nat, (terms.len() - k) as nat,
{
    if 0 <= k < terms.len() {
        match term_value(terms[k], false, fuel) {
            Err(e) => Err(e),
            Ok(v) => match apply(op, acc, v) {
                Err(e) => Err(e),
                Ok(a) => fold_from(terms, op, k + 1, a, fuel),
            },
        }
    } else {
        Ok(acc)
    }
}

/// The pieces of a text: one per character.
pub open spec fn text_pieces(s: Seq<char>) -> Seq<Piece>
    decreases s.len(),
{
    if s.len() == 0 {
        Seq::empty()
    } else {
        text_pieces(s.drop_last()).push(Piece::Ch(s.last()))
    }
}

/// The value of an expression text. Each recursive step works on a shorter
/// piece sequence, so the length of the text bounds the depth.
pub open spec fn eval_text(s: Seq<char>) -> Result<Number, EvalFault> {
    eval_spec(text_pieces(s), s.len())
}

/// An integer part: the quotient rounded toward zero, held to the range of `i32`.
pub open spec fn truncate_i32(n: Number) -> i32 {
    let q = if n.num >= 0 {
        n.num as int / n.den as int
    } else {
        -((-(n.num as int)) / n.den as int)
    };
    if q > i32::MAX {
        i32::MAX
    } else if q < i32::MIN {
        i32::MIN
    } else {
        q as i32
    }
}

/// `a * b` when it lies in the symmetric range.
fn mul_fit(a: i128, b: i128) -> (r: Option<i128>)
    ensures
        r is Some <==> fits(a * b),
        r matches Some(x) ==> x == a * b,
{
    match a.checked_mul(b) {
        Some(x) => if x == i128::MIN {
            None
        } else {
            Some(x)
        },
        None => None,
    }
}

/// `a + b` when it lies in the symmetric range.
fn add_fit(a: i128, b: i128) -> (r: Option<i128>)
    ensures
        r is Some <==> fits(a + b),
        r matches Some(x) ==> x == a + b,
{
    match a.checked_add(b) {
        Some(x) => if x == i128::MIN {
            None
        } else {
            Some(x)
        },
        None => None,
    }
}

fn checked_exec(num: Option<i128>, den: Option<i128>) -> (r: Result<Number, EvalFault>)
    ensures
        (num is Some && den is Some) ==> r == checked(num->0 as int, den->0 as int),
        (num is None || den is None) ==> r == Err::<Number, EvalFault>(EvalFault::OutOfRange),
{
    match (num, den) {
        (Some(n), Some(d)) => {
            if n == i128::MIN || d == i128::MIN {
                Err(EvalFault::OutOfRange)
            } else {
                Ok(Number { num: n, den: d })
            }
        },
        _ => Err(EvalFault::OutOfRange),
    }
}

pub proof fn lemma_apply_wf(op: ArithOp, a: Number, b: Number)
    requires
        a.wf(),
        b.wf(),
    ensures
        apply(op, a, b) matches Ok(n) ==> n.wf(),
{
    let (y, u, v) = (a.den as int, b.num as int, b.den as int);
    assert(y * v > 0) by (nonlinear_arith)
        requires
            y > 0,
            v > 0,
    ;
    if u > 0 {
        assert(y * u > 0) by (nonlinear_arith)
            requires
                y > 0,
                u > 0,
        ;
    }
    if u < 0 {
        assert(-(y * u) > 0) by (nonlinear_arith)
            requires
                y > 0,
                u < 0,
        ;
    }
}

/// `a op b`; see [`apply`].
pub fn apply_exec(op: ArithOp, a: Number, b: Number) -> (r: Result<Number, EvalFault>)
    ensures
        r == apply(op, a, b),
        a.wf() && b.wf() ==> (r matches Ok(n) ==> n.wf()),
{
    proof {
        if a.wf() && b.wf() {
            lemma_apply_wf(op, a, b);
        }
    }
    match op {
        ArithOp::Add | ArithOp::Sub => {
            let xv = mul_fit(a.num, b.den);
            let uy = mul_fit(b.num, a.den);
            match (xv, uy) {
                (Some(p), Some(q)) => {
                    let num = if matches!(op, ArithOp::Add) {
                        add_fit(p, q)
                    } else {
                        add_fit(p, -q)
                    };
                    checked_exec(num, mul_fit(a.den, b.den))
                },
                _ => Err(EvalFault::OutOfRange),
            }
        },
        ArithOp::Mul => checked_exec(mul_fit(a.num, b.num), mul_fit(a.den, b.den)),
        ArithOp::Div => {
            if b.num == 0 {
                Err(EvalFault::DivisionByZero)
            } else {
                let n = mul_fit(a.num, b.den);
                let d = mul_fit(a.den, b.num);
                if b.num > 0 {
                    checked_exec(n, d)
                } else {
                    match (n, d) {
                        (Some(x), Some(y)) => checked_exec(Some(-x), Some(-y)),
                        _ => Err(EvalFault::OutOfRange),
                    }
                }
            }
        },
    }
}

/// The integer part of `n`; see [`truncate_i32`].
pub fn truncate(n: Number) -> (r: i32)
    requires
        n.wf(),
    ensures
        r == truncate_i32(n),
{
    let q: i128 = if n.num >= 0 {
        n.num / n.den
    } else {
        -((-n.num) / n.den)
    };
    if q > i32::MAX as i128 {
        i32::MAX
    } else if q < i32::MIN as i128 {
        i32::MIN
    } else {
        q as i32
    }
}

pub proof fn lemma_digits_value_mono(d: Seq<char>, i: int)
    requires
        0 <= i <= d.len(),
        forall|j: int| 0 <= j < d.len() ==> '0' <= #[trigger] d[j] <= '9',
    ensures
        0 <= digits_value(d.take(i)) <= digits_value(d),
    decreases d.len(),
{
    if i == d.len() {
        assert(d.take(i) =~= d);
        lemma_digits_value_nonneg(d);
    } else {
        let e = d.drop_last();
        assert(e.take(i) =~= d.take(i));
        lemma_digits_value_mono(e, i);
        lemma_digits_value_nonneg(e);
    }
}

pub proof fn lemma_digits_value_nonneg(d: Seq<char>)
    requires
        forall|j: int| 0 <= j < d.len() ==> '0' <= #[trigger] d[j] <= '9',
    ensures
        0 <= digits_value(d),
    decreases d.len(),
{
    if d.len() > 0 {
        lemma_digits_value_nonneg(d.drop_last());
    }
}

/// The value of the digits `d`, when it fits.
pub fn digits_fit(d: &Vec<char>) -> (r: Option<i128>)
    requires
        forall|j: int| 0 <= j < d.len() ==> '0' <= #[trigger] d@[j] <= '9',
    ensures
        r is Some <==> digits_value(d@) <= i128_top(),
        r matches Some(x) ==> x == digits_value(d@),
{
    let mut acc: i128 = 0;
    let mut i: usize = 0;
    assert(d@.take(0) =~= Seq::<char>::empty());
    while i < d.len()
        invariant
            i <= d.len(),
            forall|j: int| 0 <= j < d.len() ==> '0' <= #[trigger] d@[j] <= '9',
            acc == digits_value(d@.take(i as int)),
            0 <= acc <= i128_top(),
        decreases d.len() - i,
    {
        let c = d[i];
        let dv: i128 = (c as u32 - '0' as u32) as i128;
        assert(d@.take(i + 1).drop_last() =~= d@.take(i as int));
        assert(d@.take(i + 1).last() == c);
        match mul_fit(acc, 10) {
            Some(x) => match add_fit(x, dv) {
                Some(y) => {
                    acc = y;
                },
                None => {
                    proof {
                        lemma_digits_value_mono(d@, i + 1);
                    }
                    return None;
                },
            },
            None => {
                proof {
                    lemma_digits_value_mono(d@, i + 1);
                }
                return None;
            },
        }
        i = i + 1;
    }
    assert(d@.take(i as int) =~= d@);
    Some(acc)
}

pub proof fn lemma_pow10_mono(a: nat, b: nat)
    requires
        a <= b,
    ensures
        1 <= pow10(a) <= pow10(b),
    decreases b,
{
    if a < b {
        lemma_pow10_mono(a, (b - 1) as nat);
    } else if a > 0 {
        lemma_pow10_mono((a - 1) as nat, (a - 1) as nat);
    }
}

/// `10^f`, when it fits.
fn pow10_fit(f: usize) -> (r: Option<i128>)
    ensures
        r is Some <==> pow10(f as nat) <= i128_top(),
        r matches Some(x) ==> x == pow10(f as nat),
{
    let mut acc: i128 = 1;
    let mut k: usize = 0;
    while k < f
        invariant
            k <= f,
            acc == pow10(k as nat),
            1 <= acc <= i128_top(),
        decreases f - k,
    {
        match mul_fit(acc, 10) {
            Some(x) => {
                acc = x;
            },
            None => {
                proof {
                    lemma_pow10_mono((k + 1) as nat, f as nat);
                }
                return None;
            },
        }
        k = k + 1;
    }
    Some(acc)
}

fn make_number_exec(neg: bool, d: &Vec<char>, f: usize) -> (r: Result<Number, EvalFault>)
    requires
        forall|j: int| 0 <= j < d.len() ==> '0' <= #[trigger] d@[j] <= '9',
    ensures
        r == make_number(neg, digits_value(d@), f as nat),
        r matches Ok(n) ==> n.wf(),
{
    proof {
        lemma_digits_value_nonneg(d@);
        lemma_pow10_mono(0, f as nat);
    }
    match (digits_fit(d), pow10_fit(f)) {
        (Some(x), Some(y)) => Ok(Number { num: if neg { -x } else { x }, den: y }),
        _ => Err(EvalFault::OutOfRange),
    }
}

/// The literal that `t` spells, if it spells one; see [`literal_of`].
fn literal_exec(t: &Vec<Piece>) -> (r: Option<Result<Number, EvalFault>>)
    ensures
        r == literal_of(t@),
        r matches Some(Ok(n)) ==> n.wf(),
{
    let mut s: Vec<char> = Vec::new();
    let mut i: usize = 0;
    while i < t.len()
        invariant
            i <= t.len(),
            forall|j: int| 0 <= j < i ==> t@[j] is Ch,
            s@ == chars_of_pieces(t@.take(i as int)),
        decreases t.len() - i,
    {
        match t[i] {
            Piece::Ch(c) => {
                s.push(c);
                assert(chars_of_pieces(t@.take(i + 1)) =~= chars_of_pieces(t@.take(i as int)).push(c));
            },
            Piece::Num(_) => {
                return None;
            },
        }
        i = i + 1;
    }
    assert(t@.take(i as int) =~= t@);
    let ghost g = s@;
    let neg = s.len() > 0 && s[0] == '-';
    let start: usize = if neg { 1 } else { 0 };
    let a = scan(&s, start, CharClass::Digit);
    proof {
        lemma_run_end_bounds(g, start as int, CharClass::Digit);
    }
    if a == s.len() {
        if a > start {
            let d = crate::text::slice(&s, start, a);
            Some(make_number_exec(neg, &d, 0))
        } else {
            None
        }
    } else if s[a] == '.' {
        let b = scan(&s, a + 1, CharClass::Digit);
        proof {
            lemma_run_end_bounds(g, a + 1, CharClass::Digit);
        }
        if b == s.len() && (a > start || b > a + 1) {
            let d = concat(&crate::text::slice(&s, start, a), &crate::text::slice(&s, a + 1, b));
            Some(make_number_exec(neg, &d, b - a - 1))
        } else {
            None
        }
    } else {
        None
    }
}

/// Every value among the pieces is well formed.
pub open spec fn pieces_wf(p: Seq<Piece>) -> bool {
    forall|i: int| 0 <= i < p.len() ==> (#[trigger] p[i] matches Piece::Num(n) ==> n.wf())
}

pub open spec fn terms_view(v: Seq<Vec<Piece>>) -> Seq<Seq<Piece>> {
    v.map_values(|t: Vec<Piece>| t@)
}

fn is_char_piece(x: Piece, c: char) -> (r: bool)
    ensures
        r == piece_is(x, c),
{
    match x {
        Piece::Ch(d) => d == c,
        Piece::Num(_) => false,
    }
}

fn is_space_piece(x: Piece) -> (r: bool)
    ensures
        r == piece_space(x),
{
    match x {
        Piece::Ch(d) => char_is_ws(d),
        Piece::Num(_) => false,
    }
}

fn slice_pieces(p: &Vec<Piece>, lo: usize, hi: usize) -> (r: Vec<Piece>)
    requires
        lo <= hi <= p.len(),
    ensures
        r@ == p@.subrange(lo as int, hi as int),
{
    let mut r: Vec<Piece> = Vec::new();
    let mut i = lo;
    while i < hi
        invariant
            lo <= i <= hi <= p.len(),
            r@ == p@.subrange(lo as int, i as int),
        decreases hi - i,
    {
        r.push(p[i]);
        assert(p@.subrange(lo as int, i + 1) =~= p@.subrange(lo as int, i as int).push(p@[i as int]));
        i = i + 1;
    }
    r
}

/// `t` without leading and trailing whitespace.
fn trim_pieces_exec(t: &Vec<Piece>) -> (r: Vec<Piece>)
    ensures
        r@ == trim_pieces(t@),
        pieces_wf(t@) ==> pieces_wf(r@),
{
    let mut lo: usize = 0;
    while lo < t.len() && is_space_piece(t[lo])
        invariant
            lo <= t.len(),
            lead_space(t@, lo as int) == lead_space(t@, 0),
        decreases t.len() - lo,
    {
        lo = lo + 1;
    }
    let mut hi = t.len();
    while hi > 0 && is_space_piece(t[hi - 1])
        invariant
            hi <= t.len(),
            trail_space(t@, hi as int) == trail_space(t@, t@.len() as int),
        decreases hi,
    {
        hi = hi - 1;
    }
    if lo < hi {
        let r = slice_pieces(t, lo, hi);
        assert(pieces_wf(t@) ==> pieces_wf(r@)) by {
            if pieces_wf(t@) {
                assert forall|i: int| 0 <= i < r@.len() implies (#[trigger] r@[i] matches Piece::Num(n) ==> n.wf()) by {
                    assert(r@[i] == t@[lo + i]);
                }
            }
        }
        r
    } else {
        Vec::new()
    }
}

/// The trimmed terms of `q` between occurrences of `c`; see [`split_on`].
fn split_exec(q: &Vec<Piece>, c: char) -> (r: Vec<Vec<Piece>>)
    requires
        pieces_wf(q@),
    ensures
        terms_view(r@) == split_on(q@, c),
        forall|k: int| 0 <= k < r@.len() ==> pieces_wf(#[trigger] r@[k]@),
{
    let mut done: Vec<Vec<Piece>> = Vec::new();
    let mut cur: Vec<Piece> = Vec::new();
    let mut i: usize = 0;
    assert(terms_view(done@) =~= Seq::<Seq<Piece>>::empty());
    while i < q.len()
        invariant
            i <= q.len(),
            pieces_wf(q@),
            pieces_wf(cur@),
            forall|k: int| 0 <= k < done@.len() ==> pieces_wf(#[trigger] done@[k]@),
            split_from(q@, c, i as int, cur@, terms_view(done@)) == split_on(q@, c),
        decreases q.len() - i,
    {
        if is_char_piece(q[i], c) {
            let t = trim_pieces_exec(&cur);
            let ghost before = terms_view(done@);
            done.push(t);
            assert(terms_view(done@) =~= before.push(trim_pieces(cur@)));
            cur = Vec::new();
        } else {
            let ghost old_cur = cur@;
            cur.push(q[i]);
            assert(pieces_wf(cur@)) by {
                assert forall|k: int| 0 <= k < cur@.len() implies (#[trigger] cur@[k] matches Piece::Num(n) ==> n.wf()) by {
                    if k < old_cur.len() {
                        assert(cur@[k] == old_cur[k]);
                    } else {
                        assert(cur@[k] == q@[i as int]);
                    }
                }
            }
        }
        i = i + 1;
    }
    let t = trim_pieces_exec(&cur);
    let ghost before = terms_view(done@);
    done.push(t);
    assert(terms_view(done@) =~= before.push(trim_pieces(cur@)));
    done
}

/// The operator that splits `q` and the terms; see [`split_terms`].
fn split_terms_exec(q: &Vec<Piece>) -> (r: (ArithOp, Vec<Vec<Piece>>))
    requires
        pieces_wf(q@),
    ensures
        (r.0, terms_view(r.1@)) == split_terms(q@),
        forall|k: int| 0 <= k < r.1@.len() ==> pieces_wf(#[trigger] r.1@[k]@),
{
    let a = split_exec(q, '+');
    if a.len() > 1 {
        return (ArithOp::Add, a);
    }
    let b = split_exec(q, '-');
    if b.len() > 1 {
        return (ArithOp::Sub, b);
    }
    let x = split_exec(q, 'x');
    if x.len() > 1 {
        return (ArithOp::Mul, x);
    }
    let m = split_exec(q, '*');
    if m.len() > 1 {
        return (ArithOp::Mul, m);
    }
    (ArithOp::Div, split_exec(q, '/'))
}

/// Where the group that opens at `i` closes; see [`group_end`].
fn group_close(p: &Vec<Piece>, i: usize) -> (r: Option<usize>)
    requires
        i < p.len(),
    ensures
        r matches Some(j) ==> j == group_end(p@, i as int) && i < j < p.len(),
        r is None ==> group_end(p@, i as int) == -1,
{
    let open = is_char_piece(p[i], '(') || is_char_piece(p[i], '[');
    if !open {
        return None;
    }
    let mut j = i + 1;
    while j < p.len() && !(is_char_piece(p[j], '(') || is_char_piece(p[j], '[')
        || is_char_piece(p[j], ')') || is_char_piece(p[j], ']'))
        invariant
            i < j <= p.len(),
            next_bracket(p@, j as int) == next_bracket(p@, i + 1),
        decreases p.len() - j,
    {
        j = j + 1;
    }
    if i + 1 < j && j < p.len() && (is_char_piece(p[j], ')') || is_char_piece(p[j], ']')) {
        Some(j)
    } else {
        None
    }
}

/// The value of expression `p`; see [`eval_spec`].
fn eval_pieces(p: &Vec<Piece>, fuel: usize) -> (r: Result<Number, EvalFault>)
    requires
        pieces_wf(p@),
    ensures
        r == eval_spec(p@, fuel as nat),
        r matches Ok(n) ==> n.wf(),
    decreases fuel,
{
    if fuel == 0 {
        return Err(EvalFault::Invalid);
    }
    let mut i: usize = 0;
    while i < p.len()
        invariant
            i <= p.len(),
            forall|j: int| 0 <= j < i ==> !piece_bad(#[trigger] p@[j]),
        decreases p.len() - i,
    {
        match p[i] {
            Piece::Ch(c) => {
                if ('a' <= c && c <= 'z') || ('A' <= c && c <= 'Z') || c == '=' {
                    assert(piece_bad(p@[i as int]));
                    return Err(EvalFault::Invalid);
                }
            },
            Piece::Num(_) => {},
        }
        i = i + 1;
    }
    assert(!(exists|j: int| 0 <= j < p@.len() && piece_bad(#[trigger] p@[j])));
    let mut out: Vec<Piece> = Vec::new();
    let mut i: usize = 0;
    while i < p.len()
        invariant
            0 < fuel,
            i <= p.len(),
            pieces_wf(p@),
            pieces_wf(out@),
            !(exists|j: int| 0 <= j < p@.len() && piece_bad(#[trigger] p@[j])),
            resolve_from(p@, i as int, out@, fuel as nat) == resolve_from(
                p@,
                0,
                Seq::empty(),
                fuel as nat,
            ),
        decreases p.len() - i,
    {
        let ghost old_out = out@;
        match group_close(p, i) {
            Some(j) => {
                let inner = slice_pieces(p, i + 1, j);
                assert(pieces_wf(inner@)) by {
                    assert forall|k: int| 0 <= k < inner@.len() implies (#[trigger] inner@[k] matches Piece::Num(n) ==> n.wf()) by {
                        assert(inner@[k] == p@[i + 1 + k]);
                    }
                }
                match eval_pieces(&inner, fuel - 1) {
                    Err(e) => {
                        assert(resolve_from(p@, i as int, out@, fuel as nat) == Err::<Seq<Piece>, EvalFault>(e));
                        return Err(e);
                    },
                    Ok(v) => {
                        out.push(Piece::Num(v));
                        i = j + 1;
                    },
                }
            },
            None => {
                out.push(p[i]);
                i = i + 1;
            },
        }
        assert(pieces_wf(out@)) by {
            assert forall|k: int| 0 <= k < out@.len() implies (#[trigger] out@[k] matches Piece::Num(n) ==> n.wf()) by {
                if k < old_out.len() {
                    assert(out@[k] == old_out[k]);
                }
            }
        }
    }
    let (op, terms) = split_terms_exec(&out);
    if terms.len() == 0 {
        return Err(EvalFault::Invalid);
    }
    let lone = terms.len() == 1 && terms[0].len() == p.len();
    let mut acc = Number { num: 0, den: 1 };
    let mut k: usize = 0;
    while k < terms.len()
        invariant
            0 < fuel,
            terms.len() > 0,
            lone == (terms.len() == 1 && terms@[0]@.len() == p@.len()),
            k <= terms.len(),
            forall|m: int| 0 <= m < terms@.len() ==> pieces_wf(#[trigger] terms@[m]@),
            resolve_from(p@, 0, Seq::empty(), fuel as nat) == Ok::<Seq<Piece>, EvalFault>(out@),
            split_terms(out@) == (op, terms_view(terms@)),
            !(exists|j: int| 0 <= j < p@.len() && piece_bad(#[trigger] p@[j])),
            k > 0 ==> acc.wf(),
            k > 0 ==> fold_from(terms_view(terms@), op, k as int, acc, fuel as nat) == eval_spec(
                p@,
                fuel as nat,
            ),
        decreases terms.len() - k,
    {
        let t = &terms[k];
        let ghost tv = terms_view(terms@)[k as int];
        assert(tv == t@);
        let v = if t.len() == 1 && matches!(t[0], Piece::Num(_)) {
            match t[0] {
                Piece::Num(n) => {
                    assert(t@[0] matches Piece::Num(m) ==> m.wf());
                    n
                },
                Piece::Ch(_) => {
                    return Err(EvalFault::Invalid);
                },
            }
        } else {
            match literal_exec(t) {
                Some(Ok(n)) => n,
                Some(Err(e)) => {
                    return Err(e);
                },
                None => {
                    if lone {
                        return Err(EvalFault::Invalid);
                    }
                    match eval_pieces(t, fuel - 1) {
                        Ok(n) => n,
                        Err(e) => {
                            return Err(e);
                        },
                    }
                },
            }
        };
        assert(term_value(tv, if k == 0 { lone } else { false }, fuel as nat) == Ok::<Number, EvalFault>(v));
        if k == 0 {
            acc = v;
        } else {
            match apply_exec(op, acc, v) {
                Ok(a) => {
                    acc = a;
                },
                Err(e) => {
                    return Err(e);
                },
            }
        }
        k = k + 1;
    }
    Ok(acc)
}

fn char_piece(c: char) -> (r: Piece)
    ensures
        r == Piece::Ch(c),
{
    Piece::Ch(c)
}

/// One piece per character of `v`.
fn pieces_of(v: &Vec<char>) -> (r: Vec<Piece>)
    ensures
        r@ == text_pieces(v@),
        forall|k: int| 0 <= k < r@.len() ==> #[trigger] r@[k] is Ch,
{
    let mut r: Vec<Piece> = Vec::new();
    let mut i: usize = 0;
    assert(v@.take(0) =~= Seq::<char>::empty());
    while i < v.len()
        invariant
            i <= v.len(),
            r@ == text_pieces(v@.take(i as int)),
            forall|k: int| 0 <= k < r@.len() ==> #[trigger] r@[k] is Ch,
        decreases v.len() - i,
    {
        let ghost old_r = r@;
        r.push(char_piece(v[i]));
        assert(v@.take(i + 1).drop_last() =~= v@.take(i as int));
        assert(r@ == old_r.push(Piece::Ch(v@[i as int])));
        assert forall|k: int| 0 <= k < r@.len() implies #[trigger] r@[k] is Ch by {
            if k < old_r.len() {
                assert(r@[k] == old_r[k]);
            }
        }
        i = i + 1;
    }
    assert(v@.take(i as int) =~= v@);
    r
}

/// Evaluates an arithmetic expression; see [`eval_text`]. The message of an
/// error names the expression.
pub fn eval(expr: &str) -> (r: Result<Number, String>)
    ensures
        match eval_text(expr@) {
            Ok(n) => r == Ok::<Number, String>(n),
            Err(f) => r matches Err(m) && m@ == fault_message(f, expr@),
        },
        r matches Ok(n) ==> n.wf(),
{
    let v = chars_of(expr);
    let p = pieces_of(&v);
    assert(pieces_wf(p@));
    match eval_pieces(&p, v.len()) {
        Ok(n) => Ok(n),
        Err(f) => Err(string_of(&fault_text(f, &v))),
    }
}

/// The message for fault `f` of expression `s`.
pub open spec fn fault_message(f: EvalFault, s: Seq<char>) -> Seq<char> {
    match f {
        EvalFault::Invalid => "`"@ + s + "` is not a valid math expression"@,
        EvalFault::OutOfRange => "`"@ + s + "` leaves the range of numbers"@,
        EvalFault::DivisionByZero => "`"@ + s + "` divides by zero"@,
    }
}

fn fault_text(f: EvalFault, s: &Vec<char>) -> (r: Vec<char>)
    ensures
        r@ == fault_message(f, s@),
{
    let head = concat(&chars_of("`"), s);
    match f {
        EvalFault::Invalid => concat(&head, &chars_of("` is not a valid math expression")),
        EvalFault::OutOfRange => concat(&head, &chars_of("` leaves the range of numbers")),
        EvalFault::DivisionByZero => concat(&head, &chars_of("` divides by zero")),
    }
}

} // verus!
