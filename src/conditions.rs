//! `if` / `else` blocks: finding a block among the lines of a script, and
//! parsing its text.
use vstd::prelude::*;

use crate::cmp::{CompareExpr, CompareExprErr, CompareErrModel, CompareModel, parse_compare};
use crate::lang_parser::{
    Expression, ParseErr, ParseErrModel, Stmt, parse_err_view, stmt_view, parse_line,
    parse_branch,
};
use crate::text::{
    chars_of, string_of, concat, trim, trimmed, starts_with, has_prefix, same_chars, scan,
    run_end, slice, nat_text, u64_text, split_source_lines, source_lines, lines_view, CharClass,
};

verus! {

/// An `if` block:
///
/// ```text
/// if <condition>
/// do <statement>
/// else
/// do <statement>
/// endif
/// ```
///
/// where the `else` part may be left out.
#[derive(Debug, PartialEq, Eq)]
pub struct Condition {
    pub condition: CompareExpr,
    pub if_expr: Expression,
    pub else_expr: Option<Expression>,
}

pub struct CondModel {
    pub condition: CompareModel,
    pub if_expr: Stmt,
    pub else_expr: Option<Stmt>,
}

pub open spec fn cond_view(c: Condition) -> CondModel
    decreases c,
{
    CondModel {
        condition: c.condition@,
        if_expr: stmt_view(c.if_expr),
        else_expr: match c.else_expr {
            Some(e) => Some(stmt_view(e)),
            None => None,
        },
    }
}

impl View for Condition {
    type V = CondModel;

    open spec fn view(&self) -> CondModel {
        cond_view(*self)
    }
}

/// Finding or parsing an `if` block failed.
#[derive(Debug, PartialEq, Eq)]
pub enum ConditionErr {
    /// The text does not have the shape of a block.
    InvalidIfElse(String),
    /// A branch is no valid statement.
    ParseErr(ParseErr),
    /// The lines hold no well-formed block at the index.
    InvalidExperssion(String),
    /// The index is out of range.
    InvalidIdx(String),
    /// The condition is no valid comparison.
    CompareExprErr(CompareExprErr),
}

pub enum CondErrModel {
    InvalidIfElse(Seq<char>),
    ParseErr(ParseErrModel),
    InvalidExperssion(Seq<char>),
    InvalidIdx(Seq<char>),
    CompareExprErr(CompareErrModel),
}

pub open spec fn cond_err_view(e: ConditionErr) -> CondErrModel
    decreases e,
{
    match e {
        ConditionErr::InvalidIfElse(s) => CondErrModel::InvalidIfElse(s@),
        ConditionErr::ParseErr(p) => CondErrModel::ParseErr(parse_err_view(p)),
        ConditionErr::InvalidExperssion(s) => CondErrModel::InvalidExperssion(s@),
        ConditionErr::InvalidIdx(s) => CondErrModel::InvalidIdx(s@),
        ConditionErr::CompareExprErr(c) => CondErrModel::CompareExprErr(c@),
    }
}

impl View for ConditionErr {
    type V = CondErrModel;

    open spec fn view(&self) -> CondErrModel {
        cond_err_view(*self)
    }
}

pub open spec fn if_prefix() -> Seq<char> {
    seq!['i', 'f', ' ']
}

pub open spec fn endif_word() -> Seq<char> {
    seq!['e', 'n', 'd', 'i', 'f']
}

pub open spec fn else_word() -> Seq<char> {
    seq!['e', 'l', 's', 'e']
}

/// A line that opens a block: after trimming, it begins with `if `.
pub open spec fn is_if_line(l: Seq<char>) -> bool {
    starts_with(trim(l), if_prefix())
}

/// A line that closes a block: `endif`, after trimming.
pub open spec fn is_endif_line(l: Seq<char>) -> bool {
    trim(l) == endif_word()
}

/// The first index at or after `k` whose line opens or closes a block, or
/// the number of lines.
pub open spec fn block_stop(lines: Seq<Seq<char>>, k: int) -> int
    decreases lines.len() - k,
{
    if 0 <= k < lines.len() {
        if is_if_line(lines[k]) || is_endif_line(lines[k]) {
            k
        } else {
            block_stop(lines, k + 1)
        }
    } else {
        lines.len() as int
    }
}

/// Lines joined with `\n`.
pub open spec fn join_lines(ls: Seq<Seq<char>>) -> Seq<char>
    decreases ls.len(),
{
    if ls.len() == 0 {
        Seq::empty()
    } else if ls.len() == 1 {
        ls[0]
    } else {
        join_lines(ls.drop_last()) + seq!['\n'] + ls.last()
    }
}

/// Finding the block that opens at line `start`: its text and the index of
/// its `endif` line. Another `if` line before the `endif`, or no `endif`,
/// is an error that names the line where the search stopped.
pub open spec fn scan_block(lines: Seq<Seq<char>>, start: int) -> Result<
    (Seq<char>, int),
    CondErrModel,
> {
    if start < 0 || start >= lines.len() {
        Err(
            CondErrModel::InvalidIdx(
                "Index out of range. idx = "@ + nat_text(start as nat) + ". 0 <= idx < "@
                    + nat_text(lines.len()),
            ),
        )
    } else if !is_if_line(lines[start]) {
        Err(
            CondErrModel::InvalidExperssion(
                "Expr: "@ + lines[start] + " is not a valid if statment"@,
            ),
        )
    } else {
        let j = block_stop(lines, start + 1);
        if j < lines.len() && is_if_line(lines[j]) {
            Err(
                CondErrModel::InvalidExperssion(
                    "Found another if statment before ending the first one: "@ + lines[j],
                ),
            )
        } else if j < lines.len() {
            Ok((join_lines(lines.subrange(start, j + 1)), j))
        } else {
            Err(
                CondErrModel::InvalidExperssion(
                    "Expected `endif` but found "@ + lines[lines.len() - 1],
                ),
            )
        }
    }
}

/// The rest of a line that begins with keyword `kw` and whitespace, trimmed.
pub open spec fn keyword_rest(l: Seq<char>, kw: Seq<char>) -> Option<Seq<char>> {
    let t = trim(l);
    if starts_with(t, kw) && run_end(t, kw.len() as int, CharClass::Space) > kw.len() {
        Some(trim(t.subrange(kw.len() as int, t.len() as int)))
    } else {
        None
    }
}

/// The condition, the `if` branch and the `else` branch of a block's lines.
pub struct BlockParts {
    pub condition: Seq<char>,
    pub if_body: Seq<char>,
    pub else_body: Option<Seq<char>>,
}

/// A block is `if <c>`, `do <s>`, `endif`, or `if <c>`, `do <s>`, `else`,
/// `do <s>`, `endif`, one per non-blank line.
pub open spec fn block_parts(ls: Seq<Seq<char>>) -> Option<BlockParts> {
    if (ls.len() == 3 || ls.len() == 5) && keyword_rest(ls[0], seq!['i', 'f']) is Some
        && keyword_rest(ls[1], seq!['d', 'o']) is Some {
        let c = keyword_rest(ls[0], seq!['i', 'f'])->0;
        let b = keyword_rest(ls[1], seq!['d', 'o'])->0;
        if ls.len() == 3 && trim(ls[2]) == endif_word() {
            Some(BlockParts { condition: c, if_body: b, else_body: None })
        } else if ls.len() == 5 && trim(ls[2]) == else_word() && keyword_rest(
            ls[3],
            seq!['d', 'o'],
        ) is Some && trim(ls[4]) == endif_word() {
            Some(
                BlockParts {
                    condition: c,
                    if_body: b,
                    else_body: Some(keyword_rest(ls[3], seq!['d', 'o'])->0),
                },
            )
        } else {
            None
        }
    } else {
        None
    }
}

/// Parsing a block's text: the branches first, each one statement, then the
/// condition.
pub open spec fn parse_block(s: Seq<char>) -> Result<CondModel, CondErrModel> {
    match block_parts(source_lines(s)) {
        None => Err(CondErrModel::InvalidIfElse(s)),
        Some(p) => match parse_line(p.if_body) {
            Err(e) => Err(CondErrModel::ParseErr(e)),
            Ok(a) => {
                let b = match p.else_body {
                    Some(x) => match parse_line(x) {
                        Ok(st) => Ok(Some(st)),
                        Err(e) => Err(e),
                    },
                    None => Ok(None),
                };
                match b {
                    Err(e) => Err(CondErrModel::ParseErr(e)),
                    Ok(eb) => match parse_compare(p.condition) {
                        Err(e) => Err(CondErrModel::CompareExprErr(e)),
                        Ok(c) => Ok(CondModel { condition: c, if_expr: a, else_expr: eb }),
                    },
                }
            },
        },
    }
}

fn keyword_rest_exec(l: &str, kw: &Vec<char>) -> (r: Option<Vec<char>>)
    ensures
        r is Some <==> keyword_rest(l@, kw@) is Some,
        r matches Some(x) ==> x@ == keyword_rest(l@, kw@)->0,
{
    let t = trimmed(&chars_of(l));
    if has_prefix(&t, kw) && scan(&t, kw.len(), CharClass::Space) > kw.len() {
        Some(trimmed(&slice(&t, kw.len(), t.len())))
    } else {
        None
    }
}

fn trimmed_is(l: &str, w: &Vec<char>) -> (r: bool)
    ensures
        r == (trim(l@) == w@),
{
    same_chars(&trimmed(&chars_of(l)), w)
}

/// The parts of a block's lines; see [`block_parts`].
fn block_parts_exec(ls: &Vec<&str>) -> (r: Option<(Vec<char>, Vec<char>, Option<Vec<char>>)>)
    ensures
        r is Some <==> block_parts(lines_view(ls@)) is Some,
        r matches Some((c, b, e)) ==> {
            let p = block_parts(lines_view(ls@))->0;
            &&& c@ == p.condition
            &&& b@ == p.if_body
            &&& match e {
                Some(x) => p.else_body == Some(x@),
                None => p.else_body is None,
            }
        },
{
    let ghost lv = lines_view(ls@);
    let n = ls.len();
    if !(n == 3 || n == 5) {
        return None;
    }
    assert(lv[0] == ls@[0]@ && lv[1] == ls@[1]@ && lv[2] == ls@[2]@);
    let kw_if = vec!['i', 'f'];
    let kw_do = vec!['d', 'o'];
    let w_endif = vec!['e', 'n', 'd', 'i', 'f'];
    let w_else = vec!['e', 'l', 's', 'e'];
    assert(kw_if@ =~= seq!['i', 'f']);
    assert(kw_do@ =~= seq!['d', 'o']);
    assert(w_endif@ =~= endif_word());
    assert(w_else@ =~= else_word());
    let c = match keyword_rest_exec(ls[0], &kw_if) {
        Some(c) => c,
        None => {
            return None;
        },
    };
    let b = match keyword_rest_exec(ls[1], &kw_do) {
        Some(b) => b,
        None => {
            return None;
        },
    };
    if n == 3 {
        if trimmed_is(ls[2], &w_endif) {
            Some((c, b, None))
        } else {
            None
        }
    } else {
        assert(lv[3] == ls@[3]@ && lv[4] == ls@[4]@);
        if !trimmed_is(ls[2], &w_else) || !trimmed_is(ls[4], &w_endif) {
            return None;
        }
        match keyword_rest_exec(ls[3], &kw_do) {
            Some(e) => Some((c, b, Some(e))),
            None => None,
        }
    }
}

impl Condition {
    /// Whether `s` opens a block: after trimming, it begins with `if `.
    pub fn is_if_statment(s: &str) -> (r: bool)
        ensures
            r == is_if_line(s@),
    {
        let p = vec!['i', 'f', ' '];
        assert(p@ =~= if_prefix());
        has_prefix(&trimmed(&chars_of(s)), &p)
    }

    /// Whether `s` is `endif`, after trimming.
    pub fn is_endif(s: &str) -> (r: bool)
        ensures
            r == is_endif_line(s@),
    {
        let w = vec!['e', 'n', 'd', 'i', 'f'];
        assert(w@ =~= endif_word());
        trimmed_is(s, &w)
    }

    /// Finds the block that opens at `lines[start_idx]`; see [`scan_block`].
    pub fn from_lines(lines: &Vec<&str>, start_idx: usize) -> (r: Result<(String, usize), ConditionErr>)
        ensures
            match scan_block(lines_view(lines@), start_idx as int) {
                Ok((text, j)) => r matches Ok((t, k)) && t@ == text && k == j,
                Err(m) => r matches Err(e) && cond_err_view(e) == m,
            },
            r matches Ok((_, k)) ==> start_idx < k < lines.len(),
    {
        let ghost lv = lines_view(lines@);
        let n = lines.len();
        if start_idx >= n {
            let m = concat(&chars_of("Index out of range. idx = "), &u64_text(start_idx as u64));
            let m = concat(&m, &chars_of(". 0 <= idx < "));
            let m = concat(&m, &u64_text(n as u64));
            return Err(ConditionErr::InvalidIdx(string_of(&m)));
        }
        assert(lv[start_idx as int] == lines@[start_idx as int]@);
        if !Condition::is_if_statment(lines[start_idx]) {
            let m = concat(&chars_of("Expr: "), &chars_of(lines[start_idx]));
            let m = concat(&m, &chars_of(" is not a valid if statment"));
            return Err(ConditionErr::InvalidExperssion(string_of(&m)));
        }
        let mut j = start_idx + 1;
        while j < n && !(Condition::is_if_statment(lines[j]) || Condition::is_endif(lines[j]))
            invariant
                lv == lines_view(lines@),
                n == lines.len(),
                start_idx < j <= n,
                block_stop(lv, j as int) == block_stop(lv, start_idx + 1),
            decreases n - j,
        {
            assert(lv[j as int] == lines@[j as int]@);
            j = j + 1;
        }
        if j < n {
            assert(lv[j as int] == lines@[j as int]@);
        }
        if j < n && Condition::is_if_statment(lines[j]) {
            let m = concat(
                &chars_of("Found another if statment before ending the first one: "),
                &chars_of(lines[j]),
            );
            return Err(ConditionErr::InvalidExperssion(string_of(&m)));
        }
        if j >= n {
            assert(lv[n - 1] == lines@[n - 1]@);
            let m = concat(&chars_of("Expected `endif` but found "), &chars_of(lines[n - 1]));
            return Err(ConditionErr::InvalidExperssion(string_of(&m)));
        }
        let mut acc = chars_of(lines[start_idx]);
        let mut k = start_idx;
        assert(lv.subrange(start_idx as int, start_idx + 1) =~= seq![lv[start_idx as int]]);
        while k < j
            invariant
                lv == lines_view(lines@),
                start_idx <= k <= j < n,
                n == lines.len(),
                acc@ == join_lines(lv.subrange(start_idx as int, k + 1)),
            decreases j - k,
        {
            k = k + 1;
            let nl = vec!['\n'];
            assert(nl@ =~= seq!['\n']);
            acc = concat(&concat(&acc, &nl), &chars_of(lines[k]));
            let ghost sub = lv.subrange(start_idx as int, k + 1);
            assert(sub.drop_last() =~= lv.subrange(start_idx as int, k as int));
            assert(sub.last() == lines@[k as int]@);
        }
        Ok((string_of(&acc), j))
    }

    /// Parses a block's text; see [`parse_block`].
    pub fn parse(s: &str) -> (r: Result<Condition, ConditionErr>)
        ensures
            match parse_block(s@) {
                Ok(c) => r matches Ok(x) && cond_view(x) == c,
                Err(m) => r matches Err(e) && cond_err_view(e) == m,
            },
    {
        let lines = split_source_lines(s);
        let (c, b, e) = match block_parts_exec(&lines) {
            Some(p) => p,
            None => {
                return Err(ConditionErr::InvalidIfElse(s.to_owned()));
            },
        };
        let if_expr = match parse_branch(string_of(&b).as_str()) {
            Ok(x) => x,
            Err(err) => {
                return Err(ConditionErr::ParseErr(err));
            },
        };
        let else_expr = match e {
            Some(x) => match parse_branch(string_of(&x).as_str()) {
                Ok(y) => Some(y),
                Err(err) => {
                    return Err(ConditionErr::ParseErr(err));
                },
            },
            None => None,
        };
        match CompareExpr::parse(string_of(&c).as_str()) {
            Ok(condition) => Ok(Condition { condition, if_expr, else_expr }),
            Err(err) => Err(ConditionErr::CompareExprErr(err)),
        }
    }
}

impl std::str::FromStr for Condition {
    type Err = ConditionErr;

    fn from_str(s: &str) -> Result<Condition, ConditionErr> {
        Condition::parse(s)
    }
}

} // verus!
