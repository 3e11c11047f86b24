//! Comparison operators and comparison expressions (`left op right`).
use vstd::prelude::*;

use crate::text::{
    chars_of, trimmed, res_view, trim, concat, string_of, slice, scan, run_end, after_quote,
    skip_quote, same_chars, CharClass,
};
use crate::variables::{VarValue, Tagged, tagged_text};

verus! {

/// Parsing an operator failed.
#[derive(Debug, PartialEq, Eq)]
pub enum OperatorErr {
    /// The text, as given, is none of `==`, `!=`, `>`, `>=`, `<`, `<=`.
    InvalidOperator(String),
}

pub enum OperatorErrModel {
    InvalidOperator(Seq<char>),
}

impl View for OperatorErr {
    type V = OperatorErrModel;

    open spec fn view(&self) -> OperatorErrModel {
        match self {
            OperatorErr::InvalidOperator(s) => OperatorErrModel::InvalidOperator(s@),
        }
    }
}

/// The six comparison operators.
#[derive(Debug, PartialEq, Eq, Clone, Copy)]
pub enum Operator {
    Eq,
    NotEq,
    Gt,
    GtEq,
    Lt,
    LtEq,
}

impl View for Operator {
    type V = Operator;

    open spec fn view(&self) -> Operator {
        *self
    }
}

/// The token that denotes `op`.
pub open spec fn token(op: Operator) -> Seq<char> {
    match op {
        Operator::Eq => seq!['=', '='],
        Operator::NotEq => seq!['!', '='],
        Operator::Gt => seq!['>'],
        Operator::GtEq => seq!['>', '='],
        Operator::Lt => seq!['<'],
        Operator::LtEq => seq!['<', '='],
    }
}

/// The operator whose token is `t`, if any.
pub open spec fn operator_of(t: Seq<char>) -> Option<Operator> {
    if t == token(Operator::Eq) {
        Some(Operator::Eq)
    } else if t == token(Operator::NotEq) {
        Some(Operator::NotEq)
    } else if t == token(Operator::Gt) {
        Some(Operator::Gt)
    } else if t == token(Operator::GtEq) {
        Some(Operator::GtEq)
    } else if t == token(Operator::Lt) {
        Some(Operator::Lt)
    } else if t == token(Operator::LtEq) {
        Some(Operator::LtEq)
    } else {
        None
    }
}

/// Parsing an operator: the token after trimming whitespace, or an error
/// that carries the text as given.
pub open spec fn parse_operator(s: Seq<char>) -> Result<Operator, OperatorErrModel> {
    match operator_of(trim(s)) {
        Some(op) => Ok(op),
        None => Err(OperatorErrModel::InvalidOperator(s)),
    }
}

impl Operator {
    /// Parses one of `==`, `!=`, `>`, `>=`, `<`, `<=`, ignoring surrounding whitespace.
    pub fn parse(s: &str) -> (r: Result<Operator, OperatorErr>)
        ensures
            res_view(r) == parse_operator(s@),
    {
        let v = chars_of(s);
        let t = trimmed(&v);
        let n = t.len();
        let op = if n == 2 && t[0] == '=' && t[1] == '=' {
            assert(t@ =~= token(Operator::Eq));
            Some(Operator::Eq)
        } else if n == 2 && t[0] == '!' && t[1] == '=' {
            assert(t@ =~= token(Operator::NotEq));
            Some(Operator::NotEq)
        } else if n == 1 && t[0] == '>' {
            assert(t@ =~= token(Operator::Gt));
            Some(Operator::Gt)
        } else if n == 2 && t[0] == '>' && t[1] == '=' {
            assert(t@ =~= token(Operator::GtEq));
            Some(Operator::GtEq)
        } else if n == 1 && t[0] == '<' {
            assert(t@ =~= token(Operator::Lt));
            Some(Operator::Lt)
        } else if n == 2 && t[0] == '<' && t[1] == '=' {
            assert(t@ =~= token(Operator::LtEq));
            Some(Operator::LtEq)
        } else {
            None
        };
        match op {
            Some(o) => Ok(o),
            None => {
                assert(operator_of(t@) is None) by {
                    if t@.len() == 2 {
                        assert(token(Operator::Eq)[0] == '=');
                        assert(token(Operator::NotEq)[0] == '!');
                        assert(token(Operator::GtEq)[0] == '>');
                        assert(token(Operator::LtEq)[0] == '<');
                        assert(token(Operator::Eq)[1] == '=');
                    }
                    if t@.len() == 1 {
                        assert(token(Operator::Gt)[0] == '>');
                        assert(token(Operator::Lt)[0] == '<');
                    }
                }
                Err(OperatorErr::InvalidOperator(s.to_owned()))
            },
        }
    }
}

impl std::str::FromStr for Operator {
    type Err = OperatorErr;

    fn from_str(s: &str) -> Result<Operator, OperatorErr> {
        Operator::parse(s)
    }
}

/// Parsing a token gives back the operator it denotes.
pub proof fn lemma_operator_round_trip(op: Operator)
    ensures
        parse_operator(token(op)) == Ok::<Operator, OperatorErrModel>(op),
{
    let t = token(op);
    assert(trim(t) =~= t) by {
        lemma_trim_of_token(op);
    }
}

/// Parsing accepts the six tokens and nothing else: a success gives the
/// operator whose token is the trimmed text, and any text that trims to no
/// token fails with an error that carries the text as given.
pub proof fn lemma_operator_parse_exact(s: Seq<char>)
    ensures
        parse_operator(s) matches Ok(op) ==> trim(s) == token(op),
        (forall|op: Operator| trim(s) != #[trigger] token(op)) ==> parse_operator(s) == Err::<
            Operator,
            OperatorErrModel,
        >(OperatorErrModel::InvalidOperator(s)),
{
}

proof fn lemma_trim_of_token(op: Operator)
    ensures
        trim(token(op)) == token(op),
{
    let t = token(op);
    reveal_with_fuel(crate::text::run_end, 2);
    reveal_with_fuel(crate::text::skip_ws_back, 2);
    assert(trim(t) =~= t);
}

/// Comparing values, or parsing a comparison, failed.
#[derive(Debug, PartialEq, Eq)]
pub enum CompareExprErr {
    /// The operator token is not valid.
    OperatorErr(OperatorErr),
    /// The text is no comparison, or the operands cannot be ordered.
    InvalidComparson(String),
}

pub enum CompareErrModel {
    OperatorErr(OperatorErrModel),
    InvalidComparson(Seq<char>),
}

impl View for CompareExprErr {
    type V = CompareErrModel;

    open spec fn view(&self) -> CompareErrModel {
        match self {
            CompareExprErr::OperatorErr(e) => CompareErrModel::OperatorErr(e@),
            CompareExprErr::InvalidComparson(s) => CompareErrModel::InvalidComparson(s@),
        }
    }
}

/// A comparison whose operands are still unresolved text.
#[derive(Debug, PartialEq, Eq, Clone)]
pub struct CompareExpr {
    pub left: String,
    pub right: String,
    pub operator: Operator,
}

pub struct CompareModel {
    pub left: Seq<char>,
    pub right: Seq<char>,
    pub operator: Operator,
}

impl View for CompareExpr {
    type V = CompareModel;

    open spec fn view(&self) -> CompareModel {
        CompareModel { left: self.left@, right: self.right@, operator: self.operator }
    }
}

/// Whether `a op b` holds of two integers.
pub open spec fn int_holds(a: int, b: int, op: Operator) -> bool {
    match op {
        Operator::Eq => a == b,
        Operator::NotEq => a != b,
        Operator::Gt => a > b,
        Operator::GtEq => a >= b,
        Operator::Lt => a < b,
        Operator::LtEq => a <= b,
    }
}

/// Why two values cannot be ordered.
pub open spec fn order_error(l: Tagged, r: Tagged) -> Seq<char> {
    match (l, r) {
        (Tagged::Int(_), Tagged::Text(v)) => "`"@ + v + "` is not a valid right hand side"@,
        (Tagged::Text(v), Tagged::Int(_)) => "`"@ + v + "` is not a valid left hand side"@,
        _ => "`"@ + tagged_text(l) + "` & `"@ + tagged_text(r)
            + "` Invalid right and left hand side"@,
    }
}

/// Comparing two values: `==` and `!=` on any two values (values of
/// different kinds are unequal), the orderings on two integers only.
pub open spec fn compare(l: Tagged, r: Tagged, op: Operator) -> Result<bool, CompareErrModel> {
    match op {
        Operator::Eq => Ok(l == r),
        Operator::NotEq => Ok(l != r),
        _ => match (l, r) {
            (Tagged::Int(a), Tagged::Int(b)) => Ok(int_holds(a as int, b as int, op)),
            _ => Err(CompareErrModel::InvalidComparson(order_error(l, r))),
        },
    }
}

/// `==` and `!=` hold of any two values, never fail, and disagree.
pub proof fn lemma_equality_total(l: Tagged, r: Tagged)
    ensures
        compare(l, r, Operator::Eq) is Ok,
        compare(l, r, Operator::NotEq) is Ok,
        compare(l, r, Operator::Eq)->Ok_0 != compare(l, r, Operator::NotEq)->Ok_0,
{
}

fn values_equal(l: &VarValue, r: &VarValue) -> (b: bool)
    ensures
        b == (l@ == r@),
{
    match (l, r) {
        (VarValue::Int(a), VarValue::Int(b)) => *a == *b,
        (VarValue::Str(a), VarValue::Str(b)) => same_chars(&chars_of(a.as_str()), &chars_of(b.as_str())),
        (VarValue::Bool(a), VarValue::Bool(b)) => *a == *b,
        _ => false,
    }
}

/// Where the parts of a comparison `left op right` stand in the trimmed text.
pub struct CompareSpans {
    pub left_start: int,
    pub left_end: int,
    pub op_start: int,
    pub op_end: int,
    pub right_start: int,
    pub right_end: int,
}

/// The spans of `[quote] left [quote] op [quote] right`: the left operand
/// holds no whitespace or quote, whitespace stands on both sides of the
/// operator, and the right operand runs up to the next quote.
pub open spec fn compare_spans(t: Seq<char>) -> CompareSpans {
    let i1 = after_quote(t, 0);
    let i2 = run_end(t, i1, CharClass::Bare);
    let i3 = after_quote(t, i2);
    let i4 = run_end(t, i3, CharClass::Space);
    let i5 = run_end(t, i4, CharClass::NonSpace);
    let i6 = run_end(t, i5, CharClass::Space);
    let i7 = after_quote(t, i6);
    let i8 = run_end(t, i7, CharClass::Unquoted);
    CompareSpans {
        left_start: i1,
        left_end: i2,
        op_start: i4,
        op_end: i5,
        right_start: i7,
        right_end: i8,
    }
}

/// Whether the spans describe a comparison: no part is empty and the
/// operator has whitespace before and after it.
pub open spec fn spans_ok(t: Seq<char>, p: CompareSpans) -> bool {
    &&& p.left_start < p.left_end
    &&& after_quote(t, p.left_end) < p.op_start
    &&& p.op_start < p.op_end
    &&& p.op_end < run_end(t, p.op_end, CharClass::Space)
    &&& p.right_start < p.right_end
}

/// Parsing a comparison expression.
pub open spec fn parse_compare(s: Seq<char>) -> Result<CompareModel, CompareErrModel> {
    let t = trim(s);
    let p = compare_spans(t);
    if spans_ok(t, p) {
        match parse_operator(t.subrange(p.op_start, p.op_end)) {
            Ok(op) => Ok(
                CompareModel {
                    left: t.subrange(p.left_start, p.left_end),
                    right: trim(t.subrange(p.right_start, p.right_end)),
                    operator: op,
                },
            ),
            Err(e) => Err(CompareErrModel::OperatorErr(e)),
        }
    } else {
        Err(CompareErrModel::InvalidComparson(s))
    }
}

impl CompareExpr {
    /// Compares two values with `op`.
    pub fn cmp(left: &VarValue, right: &VarValue, op: &Operator) -> (r: Result<bool, CompareExprErr>)
        ensures
            res_view(r) == compare(left@, right@, *op),
    {
        match op {
            Operator::Eq => Ok(values_equal(left, right)),
            Operator::NotEq => Ok(!values_equal(left, right)),
            _ => {
                let (a, b) = CompareExpr::is_valid_int_cmp(left, right)?;
                let res = match op {
                    Operator::Gt => a > b,
                    Operator::GtEq => a >= b,
                    Operator::Lt => a < b,
                    _ => a <= b,
                };
                Ok(res)
            },
        }
    }

    /// The two integers, or why the values cannot be ordered.
    fn is_valid_int_cmp(left: &VarValue, right: &VarValue) -> (r: Result<(i32, i32), CompareExprErr>)
        ensures
            match (left@, right@) {
                (Tagged::Int(a), Tagged::Int(b)) => r == Ok::<(i32, i32), CompareExprErr>((a, b)),
                _ => r matches Err(e) && e@ == CompareErrModel::InvalidComparson(
                    order_error(left@, right@),
                ),
            },
    {
        match (left, right) {
            (VarValue::Int(a), VarValue::Int(b)) => Ok((*a, *b)),
            (VarValue::Int(_), VarValue::Str(v)) => {
                let m = concat(&concat(&chars_of("`"), &chars_of(v.as_str())), &chars_of("` is not a valid right hand side"));
                Err(CompareExprErr::InvalidComparson(string_of(&m)))
            },
            (VarValue::Str(v), VarValue::Int(_)) => {
                let m = concat(&concat(&chars_of("`"), &chars_of(v.as_str())), &chars_of("` is not a valid left hand side"));
                Err(CompareExprErr::InvalidComparson(string_of(&m)))
            },
            _ => {
                let m = concat(&chars_of("`"), &left.text_chars());
                let m = concat(&m, &chars_of("` & `"));
                let m = concat(&m, &right.text_chars());
                let m = concat(&m, &chars_of("` Invalid right and left hand side"));
                Err(CompareExprErr::InvalidComparson(string_of(&m)))
            },
        }
    }

    /// Parses `left op right`; see [`parse_compare`].
    pub fn parse(s: &str) -> (r: Result<CompareExpr, CompareExprErr>)
        ensures
            res_view(r) == parse_compare(s@),
    {
        let v = chars_of(s);
        let t = trimmed(&v);
        let i1 = skip_quote(&t, 0);
        let i2 = scan(&t, i1, CharClass::Bare);
        let i3 = skip_quote(&t, i2);
        let i4 = scan(&t, i3, CharClass::Space);
        let i5 = scan(&t, i4, CharClass::NonSpace);
        let i6 = scan(&t, i5, CharClass::Space);
        let i7 = skip_quote(&t, i6);
        let i8 = scan(&t, i7, CharClass::Unquoted);
        if i1 < i2 && i3 < i4 && i4 < i5 && i5 < i6 && i7 < i8 {
            let op_text = string_of(&slice(&t, i4, i5));
            match Operator::parse(op_text.as_str()) {
                Ok(op) => {
                    let left = string_of(&slice(&t, i1, i2));
                    let right = string_of(&trimmed(&slice(&t, i7, i8)));
                    Ok(CompareExpr { left, right, operator: op })
                },
                Err(e) => Err(CompareExprErr::OperatorErr(e)),
            }
        } else {
            Err(CompareExprErr::InvalidComparson(s.to_owned()))
        }
    }
}

impl std::str::FromStr for CompareExpr {
    type Err = CompareExprErr;

    fn from_str(s: &str) -> Result<CompareExpr, CompareExprErr> {
        CompareExpr::parse(s)
    }
}

} // verus!
