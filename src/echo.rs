//! `echo` statements.
use vstd::prelude::*;

use crate::text::{
    chars_of, trimmed, res_view, trim, string_of, slice, scan, run_end, starts_with, has_prefix,
    CharClass, after_quote, skip_quote,
};

verus! {

/// Parsing an `echo` statement failed.
#[derive(Debug, PartialEq, Eq)]
pub enum EchoErr {
    /// The text, as given, is no `echo` statement.
    NoMatch(String),
}

pub enum EchoErrModel {
    NoMatch(Seq<char>),
}

impl View for EchoErr {
    type V = EchoErrModel;

    open spec fn view(&self) -> EchoErrModel {
        match self {
            EchoErr::NoMatch(s) => EchoErrModel::NoMatch(s@),
        }
    }
}

/// An `echo` statement and the raw text it prints; references in the text
/// are resolved when the statement runs.
#[derive(Debug, PartialEq, Eq, Clone)]
pub struct Echo(pub String);

impl View for Echo {
    type V = Seq<char>;

    open spec fn view(&self) -> Seq<char> {
        self.0@
    }
}

pub open spec fn echo_keyword() -> Seq<char> {
    seq!['e', 'c', 'h', 'o']
}

/// Parsing `echo <text>`: the keyword, whitespace, an optional quote, and
/// the text up to the next quote, which must not be empty.
pub open spec fn parse_echo(s: Seq<char>) -> Result<Seq<char>, EchoErrModel> {
    let t = trim(s);
    let i1 = run_end(t, 4, CharClass::Space);
    let i2 = after_quote(t, i1);
    let i3 = run_end(t, i2, CharClass::Unquoted);
    if starts_with(t, echo_keyword()) && 4 < i1 && i2 < i3 {
        Ok(t.subrange(i2, i3))
    } else {
        Err(EchoErrModel::NoMatch(s))
    }
}

impl Echo {
    /// Whether `s` is an `echo` statement.
    pub fn is_echo(s: &str) -> (r: bool)
        ensures
            r == parse_echo(s@) is Ok,
    {
        Echo::parse(s).is_ok()
    }

    /// Parses an `echo` statement; see [`parse_echo`].
    pub fn parse(s: &str) -> (r: Result<Echo, EchoErr>)
        ensures
            res_view(r) == parse_echo(s@),
    {
        let v = chars_of(s);
        let t = trimmed(&v);
        let kw = vec!['e', 'c', 'h', 'o'];
        assert(kw@ =~= echo_keyword());
        if !has_prefix(&t, &kw) {
            return Err(EchoErr::NoMatch(s.to_owned()));
        }
        let i1 = scan(&t, 4, CharClass::Space);
        let i2 = skip_quote(&t, i1);
        let i3 = scan(&t, i2, CharClass::Unquoted);
        if 4 < i1 && i2 < i3 {
            Ok(Echo(string_of(&slice(&t, i2, i3))))
        } else {
            Err(EchoErr::NoMatch(s.to_owned()))
        }
    }
}

impl std::str::FromStr for Echo {
    type Err = EchoErr;

    fn from_str(s: &str) -> Result<Echo, EchoErr> {
        Echo::parse(s)
    }
}

} // verus!
