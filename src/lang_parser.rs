//! The statement parser: a script becomes an ordered list of statements.
use vstd::prelude::*;

use crate::conditions::{
    Condition, ConditionErr, CondModel, CondErrModel, cond_err_view, cond_view, is_if_line,
    scan_block, parse_block,
};
use crate::echo::{Echo, EchoErr, EchoErrModel, parse_echo};
use crate::text::{chars_of, trim, split_source_lines, source_lines, lines_view};
use crate::variables::{Variable, VarErr, VarErrModel, VarModel, decl_parts, parse_decl};

verus! {

/// A parsed program.
#[derive(Debug)]
pub struct LangParser {
    pub experssions: Vec<Expression>,
}

/// Parsing a script failed.
#[derive(Debug, PartialEq, Eq)]
pub enum ParseErr {
    VarErr(VarErr),
    EchoErr(EchoErr),
    CondtionErr(Box<ConditionErr>),
    /// A line that is no statement.
    InvalidExperssion(String),
}

pub enum ParseErrModel {
    VarErr(VarErrModel),
    EchoErr(EchoErrModel),
    CondtionErr(Box<CondErrModel>),
    InvalidExperssion(Seq<char>),
}

pub open spec fn parse_err_view(e: ParseErr) -> ParseErrModel
    decreases e,
{
    match e {
        ParseErr::VarErr(v) => ParseErrModel::VarErr(v@),
        ParseErr::EchoErr(v) => ParseErrModel::EchoErr(v@),
        ParseErr::CondtionErr(c) => ParseErrModel::CondtionErr(Box::new(cond_err_view(*c))),
        ParseErr::InvalidExperssion(s) => ParseErrModel::InvalidExperssion(s@),
    }
}

impl View for ParseErr {
    type V = ParseErrModel;

    open spec fn view(&self) -> ParseErrModel {
        parse_err_view(*self)
    }
}

/// One statement: a declaration, an `echo`, or an `if` block.
#[derive(Debug, PartialEq, Eq)]
pub enum Expression {
    Var(Variable),
    Echo(Echo),
    Condition(Box<Condition>),
}

pub enum Stmt {
    Var(VarModel),
    Echo(Seq<char>),
    Cond(Box<CondModel>),
}

pub open spec fn stmt_view(e: Expression) -> Stmt
    decreases e,
{
    match e {
        Expression::Var(v) => Stmt::Var(v@),
        Expression::Echo(x) => Stmt::Echo(x@),
        Expression::Condition(c) => Stmt::Cond(Box::new(cond_view(*c))),
    }
}

impl View for Expression {
    type V = Stmt;

    open spec fn view(&self) -> Stmt {
        stmt_view(*self)
    }
}

pub open spec fn stmts_view(v: Seq<Expression>) -> Seq<Stmt> {
    v.map_values(|e: Expression| stmt_view(e))
}

pub open spec fn endif_error(l: Seq<char>) -> Seq<char> {
    "Expected `endif` but found "@ + l
}

/// Parsing one line that stands alone: a declaration, an `echo`, or an
/// error. An `if` line alone lacks its `endif`.
pub open spec fn parse_line(l: Seq<char>) -> Result<Stmt, ParseErrModel> {
    if decl_parts(trim(l)) is Some {
        match parse_decl(l) {
            Ok(v) => Ok(Stmt::Var(v)),
            Err(e) => Err(ParseErrModel::VarErr(e)),
        }
    } else if parse_echo(l) is Ok {
        Ok(Stmt::Echo(parse_echo(l)->Ok_0))
    } else if is_if_line(l) {
        Err(
            ParseErrModel::CondtionErr(
                Box::new(CondErrModel::InvalidExperssion(endif_error(l))),
            ),
        )
    } else {
        Err(ParseErrModel::InvalidExperssion(l))
    }
}

/// Parsing the lines of a script from index `i` on, after the statements
/// `acc`; an `if` line takes the lines of its block.
pub open spec fn parse_program_from(lines: Seq<Seq<char>>, i: int, acc: Seq<Stmt>) -> Result<
    Seq<Stmt>,
    ParseErrModel,
>
    decreases lines.len() - i,
{
    if 0 <= i < lines.len() {
        let l = lines[i];
        if decl_parts(trim(l)) is Some || parse_echo(l) is Ok || !is_if_line(l) {
            match parse_line(l) {
                Ok(st) => parse_program_from(lines, i + 1, acc.push(st)),
                Err(e) => Err(e),
            }
        } else {
            match scan_block(lines, i) {
                Err(e) => Err(ParseErrModel::CondtionErr(Box::new(e))),
                Ok((text, j)) => match parse_block(text) {
                    Err(e) => Err(ParseErrModel::CondtionErr(Box::new(e))),
                    Ok(c) => if j > i {
                        parse_program_from(lines, j + 1, acc.push(Stmt::Cond(Box::new(c))))
                    } else {
                        Err(ParseErrModel::InvalidExperssion(l))
                    },
                },
            }
        }
    } else {
        Ok(acc)
    }
}

/// Parsing a script: its non-blank lines, in order.
pub open spec fn parse_program(s: Seq<char>) -> Result<Seq<Stmt>, ParseErrModel> {
    parse_program_from(source_lines(s), 0, Seq::empty())
}

/// Parses one line that stands alone; see [`parse_line`].
pub fn parse_branch(l: &str) -> (r: Result<Expression, ParseErr>)
    ensures
        match parse_line(l@) {
            Ok(st) => r matches Ok(e) && stmt_view(e) == st,
            Err(m) => r matches Err(e) && parse_err_view(e) == m,
        },
{
    if Variable::is_var(l) {
        match Variable::parse(l) {
            Ok(v) => Ok(Expression::Var(v)),
            Err(e) => Err(ParseErr::VarErr(e)),
        }
    } else if Echo::is_echo(l) {
        match Echo::parse(l) {
            Ok(e) => Ok(Expression::Echo(e)),
            Err(e) => Err(ParseErr::EchoErr(e)),
        }
    } else if Condition::is_if_statment(l) {
        let m = crate::text::concat(&chars_of("Expected `endif` but found "), &chars_of(l));
        Err(
            ParseErr::CondtionErr(
                Box::new(ConditionErr::InvalidExperssion(crate::text::string_of(&m))),
            ),
        )
    } else {
        Err(ParseErr::InvalidExperssion(l.to_owned()))
    }
}

impl LangParser {
    /// Parses a script; see [`parse_program`]. The first line that is no
    /// statement, or no valid one, ends the parse with its error.
    pub fn parse(s: &str) -> (r: Result<LangParser, ParseErr>)
        ensures
            match parse_program(s@) {
                Ok(ss) => r matches Ok(p) && stmts_view(p.experssions@) == ss,
                Err(m) => r matches Err(e) && parse_err_view(e) == m,
            },
    {
        let lines = split_source_lines(s);
        let ghost lv = lines_view(lines@);
        let mut experssions: Vec<Expression> = Vec::new();
        let mut idx: usize = 0;
        assert(stmts_view(experssions@) =~= Seq::<Stmt>::empty());
        while idx < lines.len()
            invariant
                lv == lines_view(lines@),
                lv == source_lines(s@),
                idx <= lines.len(),
                parse_program_from(lv, idx as int, stmts_view(experssions@)) == parse_program(s@),
            decreases lines.len() - idx,
        {
            let line = lines[idx];
            assert(line@ == lv[idx as int]);
            let ghost before = stmts_view(experssions@);
            if Variable::is_var(line) || Echo::is_echo(line) || !Condition::is_if_statment(line) {
                match parse_branch(line) {
                    Ok(e) => {
                        experssions.push(e);
                        assert(stmts_view(experssions@) =~= before.push(stmt_view(e)));
                    },
                    Err(e) => {
                        return Err(e);
                    },
                }
                idx = idx + 1;
            } else {
                match Condition::from_lines(&lines, idx) {
                    Err(e) => {
                        return Err(ParseErr::CondtionErr(Box::new(e)));
                    },
                    Ok((text, j)) => match Condition::parse(text.as_str()) {
                        Err(e) => {
                            return Err(ParseErr::CondtionErr(Box::new(e)));
                        },
                        Ok(c) => {
                            let e = Expression::Condition(Box::new(c));
                            experssions.push(e);
                            assert(stmts_view(experssions@) =~= before.push(stmt_view(e)));
                            idx = j + 1;
                        },
                    },
                }
            }
        }
        Ok(LangParser { experssions })
    }
}

impl std::str::FromStr for LangParser {
    type Err = ParseErr;

    fn from_str(s: &str) -> Result<LangParser, ParseErr> {
        LangParser::parse(s)
    }
}

} // verus!
