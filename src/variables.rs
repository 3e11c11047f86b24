//! Runtime values and variable declarations (`name : type = value`).
use vstd::prelude::*;

use crate::eval::{eval, eval_text, truncate, truncate_i32};
use crate::text::{
    chars_of, string_of, i32_text, int_text, trim, trimmed, run_end, scan, slice, concat,
    same_chars, res_view, is_quote, CharClass,
};

verus! {

/// A runtime value: an integer, a piece of text or a boolean.
#[derive(Debug, PartialEq, Eq, Clone)]
pub enum VarValue {
    Int(i32),
    Str(String),
    Bool(bool),
}

/// What a [`VarValue`] holds, with its text as characters.
pub enum Tagged {
    Int(i32),
    Text(Seq<char>),
    Bool(bool),
}

impl View for VarValue {
    type V = Tagged;

    open spec fn view(&self) -> Tagged {
        match self {
            VarValue::Int(i) => Tagged::Int(*i),
            VarValue::Str(s) => Tagged::Text(s@),
            VarValue::Bool(b) => Tagged::Bool(*b),
        }
    }
}

/// The text of a boolean: `true` or `false`.
pub open spec fn bool_text(b: bool) -> Seq<char> {
    if b {
        seq!['t', 'r', 'u', 'e']
    } else {
        seq!['f', 'a', 'l', 's', 'e']
    }
}

/// How a value is written out: decimal for integers, the text itself, or
/// `true` / `false`.
pub open spec fn tagged_text(v: Tagged) -> Seq<char> {
    match v {
        Tagged::Int(i) => int_text(i as int),
        Tagged::Text(s) => s,
        Tagged::Bool(b) => bool_text(b),
    }
}

pub fn bool_chars(b: bool) -> (r: Vec<char>)
    ensures
        r@ == bool_text(b),
{
    if b {
        let r = vec!['t', 'r', 'u', 'e'];
        assert(r@ =~= bool_text(b));
        r
    } else {
        let r = vec!['f', 'a', 'l', 's', 'e'];
        assert(r@ =~= bool_text(b));
        r
    }
}

impl VarValue {
    /// The value as it is printed.
    pub fn text_chars(&self) -> (r: Vec<char>)
        ensures
            r@ == tagged_text(self@),
    {
        match self {
            VarValue::Int(i) => i32_text(*i),
            VarValue::Str(s) => chars_of(s.as_str()),
            VarValue::Bool(b) => bool_chars(*b),
        }
    }

    /// The value as it is printed.
    pub fn to_text(&self) -> (r: String)
        ensures
            r@ == tagged_text(self@),
    {
        let v = self.text_chars();
        string_of(&v)
    }

    /// A copy of the value.
    pub fn duplicate(&self) -> (r: VarValue)
        ensures
            r@ == self@,
    {
        match self {
            VarValue::Int(i) => VarValue::Int(*i),
            VarValue::Str(s) => VarValue::Str(s.clone()),
            VarValue::Bool(b) => VarValue::Bool(*b),
        }
    }

    /// A value built from its model.
    pub fn from_chars_text(v: &Vec<char>) -> (r: VarValue)
        ensures
            r@ == Tagged::Text(v@),
    {
        VarValue::Str(string_of(v))
    }
}

/// Parsing a declaration failed.
#[derive(Debug, PartialEq, Eq)]
pub enum VarErr {
    /// The integer expression has no value.
    InvalidInt(String),
    /// The text, as given, is no declaration.
    InvlaidVarDeclaration(String),
    /// The type is none of `str`, `string`, `int`, `bool`.
    InvalidDataType(String),
    /// The value of a `bool` is neither `true` nor `false`.
    InvalidBool(String),
}

pub enum VarErrModel {
    InvalidInt(Seq<char>),
    InvlaidVarDeclaration(Seq<char>),
    InvalidDataType(Seq<char>),
    InvalidBool(Seq<char>),
}

impl View for VarErr {
    type V = VarErrModel;

    open spec fn view(&self) -> VarErrModel {
        match self {
            VarErr::InvalidInt(s) => VarErrModel::InvalidInt(s@),
            VarErr::InvlaidVarDeclaration(s) => VarErrModel::InvlaidVarDeclaration(s@),
            VarErr::InvalidDataType(s) => VarErrModel::InvalidDataType(s@),
            VarErr::InvalidBool(s) => VarErrModel::InvalidBool(s@),
        }
    }
}

/// A named value.
#[derive(Debug, PartialEq, Eq, Clone)]
pub struct Variable {
    pub name: String,
    pub value: VarValue,
}

pub struct VarModel {
    pub name: Seq<char>,
    pub value: Tagged,
}

impl View for Variable {
    type V = VarModel;

    open spec fn view(&self) -> VarModel {
        VarModel { name: self.name@, value: self.value@ }
    }
}

/// The three parts of a declaration `name : type = value`.
pub struct DeclParts {
    pub name: Seq<char>,
    pub declared_type: Seq<char>,
    pub value: Seq<char>,
}

/// Splitting trimmed text into `name : type = value`: the name holds no
/// whitespace or `:`, the type no whitespace, `:` or `=`; whitespace may
/// stand around `:` and `=`; the value is the rest, trimmed, and not empty.
pub open spec fn decl_parts(t: Seq<char>) -> Option<DeclParts> {
    let n1 = run_end(t, 0, CharClass::Name);
    let n2 = run_end(t, n1, CharClass::Space);
    let n3 = run_end(t, n2 + 1, CharClass::Space);
    let n4 = run_end(t, n3, CharClass::TypeName);
    let n5 = run_end(t, n4, CharClass::Space);
    if 0 < n1 && n2 < t.len() && t[n2] == ':' && n3 < n4 && n5 < t.len() && t[n5] == '='
        && trim(t.subrange(n5 + 1, t.len() as int)).len() > 0 {
        Some(
            DeclParts {
                name: t.subrange(0, n1),
                declared_type: t.subrange(n3, n4),
                value: trim(t.subrange(n5 + 1, t.len() as int)),
            },
        )
    } else {
        None
    }
}

/// `v` without one quote at its start and one at its end.
pub open spec fn strip_quotes(v: Seq<char>) -> Seq<char> {
    let a = if v.len() > 0 && is_quote(v[0]) {
        v.drop_first()
    } else {
        v
    };
    if a.len() > 0 && is_quote(a.last()) {
        a.drop_last()
    } else {
        a
    }
}

pub open spec fn kw_str() -> Seq<char> {
    seq!['s', 't', 'r']
}

pub open spec fn kw_string() -> Seq<char> {
    seq!['s', 't', 'r', 'i', 'n', 'g']
}

pub open spec fn kw_int() -> Seq<char> {
    seq!['i', 'n', 't']
}

pub open spec fn kw_bool() -> Seq<char> {
    seq!['b', 'o', 'o', 'l']
}

/// The value of a declaration of type `ty` whose value text is `value`:
/// text without its quotes for `str` and `string`; the evaluated
/// expression, rounded toward zero and held to `i32`, for `int`; `true` or
/// `false`, quotes allowed, for `bool`.
pub open spec fn typed_value(ty: Seq<char>, value: Seq<char>) -> Result<Tagged, VarErrModel> {
    if ty == kw_str() || ty == kw_string() {
        Ok(Tagged::Text(strip_quotes(value)))
    } else if ty == kw_int() {
        match eval_text(value) {
            Ok(n) => Ok(Tagged::Int(truncate_i32(n))),
            Err(_) => Err(
                VarErrModel::InvalidInt("`"@ + value + "` is not a valid int expression"@),
            ),
        }
    } else if ty == kw_bool() {
        if strip_quotes(value) == bool_text(true) {
            Ok(Tagged::Bool(true))
        } else if strip_quotes(value) == bool_text(false) {
            Ok(Tagged::Bool(false))
        } else {
            Err(VarErrModel::InvalidBool("`"@ + value + "` is not a valid boolean"@))
        }
    } else {
        Err(VarErrModel::InvalidDataType(ty))
    }
}

/// Parsing a declaration `name : type = value`.
pub open spec fn parse_decl(s: Seq<char>) -> Result<VarModel, VarErrModel> {
    match decl_parts(trim(s)) {
        None => Err(VarErrModel::InvlaidVarDeclaration(s)),
        Some(p) => match typed_value(p.declared_type, p.value) {
            Ok(v) => Ok(VarModel { name: p.name, value: v }),
            Err(e) => Err(e),
        },
    }
}

struct DeclIdx {
    n1: usize,
    n3: usize,
    n4: usize,
    n5: usize,
}

/// Where the parts of a declaration stand in `t`; see [`decl_parts`].
fn decl_idx(t: &Vec<char>) -> (r: Option<DeclIdx>)
    ensures
        decl_parts(t@) is Some <==> r is Some,
        r matches Some(d) ==> {
            &&& d.n1 <= d.n3 <= d.n4 <= d.n5 < t.len()
            &&& decl_parts(t@) == Some(
                DeclParts {
                    name: t@.subrange(0, d.n1 as int),
                    declared_type: t@.subrange(d.n3 as int, d.n4 as int),
                    value: trim(t@.subrange(d.n5 + 1, t@.len() as int)),
                },
            )
        },
{
    let n1 = scan(t, 0, CharClass::Name);
    let n2 = scan(t, n1, CharClass::Space);
    if !(0 < n1 && n2 < t.len() && t[n2] == ':') {
        return None;
    }
    let n3 = scan(t, n2 + 1, CharClass::Space);
    let n4 = scan(t, n3, CharClass::TypeName);
    let n5 = scan(t, n4, CharClass::Space);
    if !(n3 < n4 && n5 < t.len() && t[n5] == '=') {
        return None;
    }
    let rest = trimmed(&slice(t, n5 + 1, t.len()));
    if rest.len() == 0 {
        return None;
    }
    Some(DeclIdx { n1, n3, n4, n5 })
}

fn strip_quotes_exec(v: &Vec<char>) -> (r: Vec<char>)
    ensures
        r@ == strip_quotes(v@),
{
    let lo: usize = if v.len() > 0 && (v[0] == '\'' || v[0] == '"') { 1 } else { 0 };
    let hi: usize = if v.len() > lo && (v[v.len() - 1] == '\'' || v[v.len() - 1] == '"') {
        v.len() - 1
    } else {
        v.len()
    };
    let r = slice(v, lo, hi);
    proof {
        let a = if v@.len() > 0 && is_quote(v@[0]) { v@.drop_first() } else { v@ };
        assert(a =~= v@.subrange(lo as int, v@.len() as int));
        if a.len() > 0 && is_quote(a.last()) {
            assert(a.drop_last() =~= r@);
        } else {
            assert(a =~= r@);
        }
    }
    r
}

fn typed_value_exec(ty: &Vec<char>, value: &Vec<char>) -> (r: Result<VarValue, VarErr>)
    ensures
        res_view(r) == typed_value(ty@, value@),
{
    let k_str = vec!['s', 't', 'r'];
    let k_string = vec!['s', 't', 'r', 'i', 'n', 'g'];
    let k_int = vec!['i', 'n', 't'];
    let k_bool = vec!['b', 'o', 'o', 'l'];
    assert(k_str@ =~= kw_str());
    assert(k_string@ =~= kw_string());
    assert(k_int@ =~= kw_int());
    assert(k_bool@ =~= kw_bool());
    if same_chars(ty, &k_str) || same_chars(ty, &k_string) {
        Ok(VarValue::from_chars_text(&strip_quotes_exec(value)))
    } else if same_chars(ty, &k_int) {
        let text = string_of(value);
        match eval(text.as_str()) {
            Ok(n) => Ok(VarValue::Int(truncate(n))),
            Err(_) => {
                let m = concat(&concat(&chars_of("`"), value), &chars_of("` is not a valid int expression"));
                Err(VarErr::InvalidInt(string_of(&m)))
            },
        }
    } else if same_chars(ty, &k_bool) {
        let b = strip_quotes_exec(value);
        if same_chars(&b, &bool_chars(true)) {
            Ok(VarValue::Bool(true))
        } else if same_chars(&b, &bool_chars(false)) {
            Ok(VarValue::Bool(false))
        } else {
            let m = concat(&concat(&chars_of("`"), value), &chars_of("` is not a valid boolean"));
            Err(VarErr::InvalidBool(string_of(&m)))
        }
    } else {
        Err(VarErr::InvalidDataType(string_of(ty)))
    }
}

impl Variable {
    /// A variable with the given name and value.
    pub fn new(name: &str, value: VarValue) -> (r: Variable)
        ensures
            r@ == (VarModel { name: name@, value: value@ }),
    {
        Variable { name: name.to_owned(), value }
    }

    /// Whether `s` has the shape of a declaration, whatever its type and value.
    pub fn is_var(s: &str) -> (r: bool)
        ensures
            r == decl_parts(trim(s@)) is Some,
    {
        let t = trimmed(&chars_of(s));
        decl_idx(&t).is_some()
    }

    /// Whether the variable holds an integer.
    pub fn is_int(&self) -> (r: bool)
        ensures
            r == self@.value is Int,
    {
        match self.value {
            VarValue::Int(_) => true,
            _ => false,
        }
    }

    /// Parses a declaration; see [`parse_decl`].
    pub fn parse(s: &str) -> (r: Result<Variable, VarErr>)
        ensures
            res_view(r) == parse_decl(s@),
    {
        let t = trimmed(&chars_of(s));
        match decl_idx(&t) {
            None => Err(VarErr::InvlaidVarDeclaration(s.to_owned())),
            Some(d) => {
                let name = slice(&t, 0, d.n1);
                let ty = slice(&t, d.n3, d.n4);
                let value = trimmed(&slice(&t, d.n5 + 1, t.len()));
                match typed_value_exec(&ty, &value) {
                    Ok(v) => Ok(Variable { name: string_of(&name), value: v }),
                    Err(e) => Err(e),
                }
            },
        }
    }
}

impl std::str::FromStr for Variable {
    type Err = VarErr;

    fn from_str(s: &str) -> Result<Variable, VarErr> {
        Variable::parse(s)
    }
}

} // verus!
