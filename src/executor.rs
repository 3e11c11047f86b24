//! The executor: runs a parsed program once, in order, against an
//! environment of variables, and collects what `echo` prints.
use vstd::prelude::*;

use crate::cmp::{CompareExpr, CompareExprErr, CompareErrModel, compare};
use crate::conditions::{Condition, parse_block};
use crate::echo::Echo;
use crate::eval::{digits_fit, digits_value};
use crate::lang_parser::{
    Expression, Stmt, stmt_view, stmts_view, parse_program, parse_program_from, parse_line,
};
use crate::text::{
    chars_of, concat, slice, same_chars, scan, run_end, is_ws, trim, lemma_run_end_exact,
    lemma_trim_unchanged, CharClass,
};
use crate::variables::{
    VarValue, Tagged, VarModel, tagged_text, bool_text, bool_chars, parse_decl, decl_parts,
    strip_quotes,
};

verus! {

/// Running a program failed.
#[derive(Debug)]
pub enum ExeError {
    /// A condition compared values that cannot be compared with its operator.
    CompareExprErr(CompareExprErr),
}

/// What a program sees of the process that runs it: its arguments, the
/// first being the interpreter's own path, and its environment variables.
pub struct Context {
    pub args: Seq<Seq<char>>,
    pub env: Seq<(Seq<char>, Seq<char>)>,
}

/// The environment that a list of bindings with distinct names stands for.
pub open spec fn env_of(s: Seq<(Vec<char>, VarValue)>) -> Map<Seq<char>, Tagged>
    decreases s.len(),
{
    if s.len() == 0 {
        Map::empty()
    } else {
        env_of(s.drop_last()).insert(s.last().0@, s.last().1@)
    }
}

pub open spec fn names_unique(s: Seq<(Vec<char>, VarValue)>) -> bool {
    forall|i: int, j: int| 0 <= i < j < s.len() ==> #[trigger] s[i].0@ != #[trigger] s[j].0@
}

pub proof fn lemma_env_of_contains(s: Seq<(Vec<char>, VarValue)>, k: Seq<char>)
    ensures
        env_of(s).contains_key(k) <==> exists|i: int| 0 <= i < s.len() && #[trigger] s[i].0@ == k,
    decreases s.len(),
{
    if s.len() > 0 {
        let d = s.drop_last();
        lemma_env_of_contains(d, k);
        if env_of(s).contains_key(k) {
            if s.last().0@ != k {
                let i = choose|i: int| 0 <= i < d.len() && #[trigger] d[i].0@ == k;
                assert(s[i] == d[i]);
            } else {
                assert(s[s.len() - 1].0@ == k);
            }
        }
        if exists|i: int| 0 <= i < s.len() && #[trigger] s[i].0@ == k {
            let i = choose|i: int| 0 <= i < s.len() && #[trigger] s[i].0@ == k;
            if i < s.len() - 1 {
                assert(d[i] == s[i]);
            }
        }
    }
}

pub proof fn lemma_env_of_index(s: Seq<(Vec<char>, VarValue)>, i: int)
    requires
        names_unique(s),
        0 <= i < s.len(),
    ensures
        env_of(s).contains_key(s[i].0@),
        env_of(s)[s[i].0@] == s[i].1@,
    decreases s.len(),
{
    let d = s.drop_last();
    if i < s.len() - 1 {
        assert(d[i] == s[i]);
        assert(s[i].0@ != s[s.len() - 1].0@);
        lemma_env_of_index(d, i);
    }
}

pub proof fn lemma_env_of_update(s: Seq<(Vec<char>, VarValue)>, i: int, p: (Vec<char>, VarValue))
    requires
        names_unique(s),
        0 <= i < s.len(),
        s[i].0@ == p.0@,
    ensures
        names_unique(s.update(i, p)),
        env_of(s.update(i, p)) == env_of(s).insert(p.0@, p.1@),
{
    let u = s.update(i, p);
    assert(names_unique(u)) by {
        assert forall|a: int, b: int| 0 <= a < b < u.len() implies #[trigger] u[a].0@ != #[trigger] u[b].0@ by {
            assert(u[a].0@ == s[a].0@);
            assert(u[b].0@ == s[b].0@);
        }
    }
    let m1 = env_of(u);
    let m2 = env_of(s).insert(p.0@, p.1@);
    assert forall|k: Seq<char>| m1.contains_key(k) <==> m2.contains_key(k) by {
        lemma_env_of_contains(u, k);
        lemma_env_of_contains(s, k);
        if exists|j: int| 0 <= j < s.len() && #[trigger] s[j].0@ == k {
            let j = choose|j: int| 0 <= j < s.len() && #[trigger] s[j].0@ == k;
            assert(u[j].0@ == k);
        }
        if exists|j: int| 0 <= j < u.len() && #[trigger] u[j].0@ == k {
            let j = choose|j: int| 0 <= j < u.len() && #[trigger] u[j].0@ == k;
            assert(s[j].0@ == k);
        }
    }
    assert forall|k: Seq<char>| m1.contains_key(k) implies m1[k] == m2[k] by {
        lemma_env_of_contains(u, k);
        let j = choose|j: int| 0 <= j < u.len() && #[trigger] u[j].0@ == k;
        lemma_env_of_index(u, j);
        if j != i {
            assert(s[j] == u[j]);
            lemma_env_of_index(s, j);
        }
    }
    assert(m1 =~= m2);
}

pub proof fn lemma_env_of_push(s: Seq<(Vec<char>, VarValue)>, p: (Vec<char>, VarValue))
    requires
        names_unique(s),
        !env_of(s).contains_key(p.0@),
    ensures
        names_unique(s.push(p)),
        env_of(s.push(p)) == env_of(s).insert(p.0@, p.1@),
{
    let u = s.push(p);
    assert(u.drop_last() =~= s);
    lemma_env_of_contains(s, p.0@);
    assert forall|a: int, b: int| 0 <= a < b < u.len() implies #[trigger] u[a].0@ != #[trigger] u[b].0@ by {
        assert(u[a] == s[a]);
        if b < s.len() {
            assert(u[b] == s[b]);
        }
    }
}

/// The environment variable `k`, or empty text when it is not set.
pub open spec fn env_var(env: Seq<(Seq<char>, Seq<char>)>, k: Seq<char>, i: int) -> Seq<char>
    decreases env.len() - i,
{
    if 0 <= i < env.len() {
        if env[i].0 == k {
            env[i].1
        } else {
            env_var(env, k, i + 1)
        }
    } else {
        Seq::empty()
    }
}

pub open spec fn all_digits(s: Seq<char>) -> bool {
    forall|j: int| 0 <= j < s.len() ==> '0' <= #[trigger] s[j] <= '9'
}

/// Reading a `usize`: an optional `+`, then at least one digit, in range.
pub open spec fn parse_usize(s: Seq<char>) -> Option<nat> {
    let b = if s.len() > 0 && s[0] == '+' {
        s.drop_first()
    } else {
        s
    };
    if b.len() > 0 && all_digits(b) && digits_value(b) <= usize::MAX {
        Some(digits_value(b) as nat)
    } else {
        None
    }
}

/// Reading an `i32`: an optional sign, then at least one digit, in range.
pub open spec fn parse_i32(s: Seq<char>) -> Option<i32> {
    let neg = s.len() > 0 && s[0] == '-';
    let b = if s.len() > 0 && (s[0] == '+' || s[0] == '-') {
        s.drop_first()
    } else {
        s
    };
    if b.len() > 0 && all_digits(b) {
        let v = if neg {
            -digits_value(b)
        } else {
            digits_value(b)
        };
        if i32::MIN <= v <= i32::MAX {
            Some(v as i32)
        } else {
            None
        }
    } else {
        None
    }
}

/// Reading a boolean literal.
pub open spec fn parse_bool(s: Seq<char>) -> Option<bool> {
    if s == bool_text(true) {
        Some(true)
    } else if s == bool_text(false) {
        Some(false)
    } else {
        None
    }
}

/// A name that no variable holds: a positional argument when it reads as
/// an index (index `n` is argument `n + 1`, past the interpreter's path),
/// else an environment variable; empty when neither is there.
pub open spec fn outside_value(ctx: Context, name: Seq<char>) -> Seq<char> {
    match parse_usize(name) {
        Some(n) => if n + 1 < ctx.args.len() {
            ctx.args[n + 1 as int]
        } else {
            Seq::empty()
        },
        None => env_var(ctx.env, name, 0),
    }
}

/// The value a reference `$name` stands for.
pub open spec fn resolve_ref(vars: Map<Seq<char>, Tagged>, ctx: Context, name: Seq<char>) -> Tagged {
    if vars.contains_key(name) {
        vars[name]
    } else {
        Tagged::Text(outside_value(ctx, name))
    }
}

/// The reference that starts at `t[i] == '$'`: `${name}` or `$name`, where
/// the name holds no whitespace, quote, `;`, `,` or `}`, with an optional
/// `}` after it. Its name and where it ends.
pub open spec fn ref_at(t: Seq<char>, i: int) -> Option<(Seq<char>, int)> {
    if 0 <= i < t.len() && t[i] == '$' {
        let j = i + 1;
        let s = if j < t.len() && t[j] == '{' && run_end(t, j + 1, CharClass::RefName) > j + 1 {
            j + 1
        } else {
            j
        };
        let k = run_end(t, s, CharClass::RefName);
        if k > s {
            let end = if k < t.len() && t[k] == '}' {
                k + 1
            } else {
                k
            };
            Some((t.subrange(s, k), end))
        } else {
            None
        }
    } else {
        None
    }
}

/// Replacing each reference of `t` from index `i` on by the text of its value.
pub open spec fn substitute_from(
    vars: Map<Seq<char>, Tagged>,
    ctx: Context,
    t: Seq<char>,
    i: int,
    acc: Seq<char>,
) -> Seq<char>
    decreases t.len() - i,
{
    if 0 <= i < t.len() {
        match ref_at(t, i) {
            Some((name, end)) => if i < end <= t.len() {
                substitute_from(vars, ctx, t, end, acc + tagged_text(resolve_ref(vars, ctx, name)))
            } else {
                acc
            },
            None => substitute_from(vars, ctx, t, i + 1, acc.push(t[i])),
        }
    } else {
        acc
    }
}

/// Variable expansion: references replaced by their values; then the whole
/// text, as one name, is the value of the variable so named, or, when it
/// begins with `$`, the positional argument or environment variable named
/// by the rest; else it is text.
pub open spec fn expand(vars: Map<Seq<char>, Tagged>, ctx: Context, t: Seq<char>) -> Tagged {
    let u = substitute_from(vars, ctx, t, 0, Seq::empty());
    if vars.contains_key(u) {
        vars[u]
    } else if u.len() > 0 && u[0] == '$' {
        Tagged::Text(outside_value(ctx, u.drop_first()))
    } else {
        Tagged::Text(u)
    }
}

/// The value of an operand of a condition: a variable, a positional
/// argument or environment variable for `$name`, else an integer, a boolean
/// or the text itself.
pub open spec fn operand(vars: Map<Seq<char>, Tagged>, ctx: Context, s: Seq<char>) -> Tagged {
    if vars.contains_key(s) {
        vars[s]
    } else if s.len() > 0 && s[0] == '$' {
        Tagged::Text(outside_value(ctx, s.drop_first()))
    } else {
        match parse_i32(s) {
            Some(n) => Tagged::Int(n),
            None => match parse_bool(s) {
                Some(b) => Tagged::Bool(b),
                None => Tagged::Text(s),
            },
        }
    }
}

/// The state of a run: the environment and the lines printed so far.
pub struct RunState {
    pub vars: Map<Seq<char>, Tagged>,
    pub out: Seq<Seq<char>>,
}

/// Running a declaration or an `echo`: a declared text is expanded before
/// it is bound; an integer or a boolean is bound as it is. An `if` block
/// is not run here.
pub open spec fn run_simple(st: RunState, ctx: Context, s: Stmt) -> RunState {
    match s {
        Stmt::Var(v) => RunState {
            vars: st.vars.insert(
                v.name,
                match v.value {
                    Tagged::Text(t) => expand(st.vars, ctx, t),
                    other => other,
                },
            ),
            out: st.out,
        },
        Stmt::Echo(t) => RunState {
            vars: st.vars,
            out: st.out.push(tagged_text(expand(st.vars, ctx, t))),
        },
        Stmt::Cond(_) => st,
    }
}

/// Running one statement: an `if` block compares its operands and runs one
/// branch, or none, or fails.
pub open spec fn run_stmt(st: RunState, ctx: Context, s: Stmt) -> (RunState, Option<CompareErrModel>) {
    match s {
        Stmt::Cond(c) => {
            let l = operand(st.vars, ctx, c.condition.left);
            let r = operand(st.vars, ctx, c.condition.right);
            match compare(l, r, c.condition.operator) {
                Err(e) => (st, Some(e)),
                Ok(true) => (run_simple(st, ctx, c.if_expr), None),
                Ok(false) => match c.else_expr {
                    Some(b) => (run_simple(st, ctx, b), None),
                    None => (st, None),
                },
            }
        },
        _ => (run_simple(st, ctx, s), None),
    }
}

/// Running the statements from index `i` on, stopping at the first error.
pub open spec fn run_from(ss: Seq<Stmt>, i: int, st: RunState, ctx: Context) -> (
    RunState,
    Option<CompareErrModel>,
)
    decreases ss.len() - i,
{
    if 0 <= i < ss.len() {
        let (next, err) = run_stmt(st, ctx, ss[i]);
        if err is Some {
            (next, err)
        } else {
            run_from(ss, i + 1, next, ctx)
        }
    } else {
        (st, None)
    }
}

/// The environment before a run: every top-level declaration bound to its
/// value as written, in order.
pub open spec fn seed_from(ss: Seq<Stmt>, i: int, vars: Map<Seq<char>, Tagged>) -> Map<
    Seq<char>,
    Tagged,
>
    decreases ss.len() - i,
{
    if 0 <= i < ss.len() {
        match ss[i] {
            Stmt::Var(v) => seed_from(ss, i + 1, vars.insert(v.name, v.value)),
            _ => seed_from(ss, i + 1, vars),
        }
    } else {
        vars
    }
}

/// No branch of an `if` block is itself a block.
pub open spec fn flat_stmt(s: Stmt) -> bool {
    match s {
        Stmt::Cond(c) => !(c.if_expr is Cond) && match c.else_expr {
            Some(b) => !(b is Cond),
            None => true,
        },
        _ => true,
    }
}

pub open spec fn flat_program(ss: Seq<Stmt>) -> bool {
    forall|i: int| 0 <= i < ss.len() ==> flat_stmt(#[trigger] ss[i])
}

fn all_digits_exec(v: &Vec<char>) -> (r: bool)
    ensures
        r == all_digits(v@),
{
    let mut i: usize = 0;
    while i < v.len()
        invariant
            i <= v.len(),
            forall|j: int| 0 <= j < i ==> '0' <= #[trigger] v@[j] <= '9',
        decreases v.len() - i,
    {
        if !('0' <= v[i] && v[i] <= '9') {
            return false;
        }
        i = i + 1;
    }
    true
}

/// The text without its first character when that is one of `a`, `b`.
fn drop_sign(v: &Vec<char>, a: char, b: char) -> (r: Vec<char>)
    ensures
        r@ == (if v@.len() > 0 && (v@[0] == a || v@[0] == b) {
            v@.drop_first()
        } else {
            v@
        }),
{
    if v.len() > 0 && (v[0] == a || v[0] == b) {
        let r = slice(v, 1, v.len());
        assert(r@ =~= v@.drop_first());
        r
    } else {
        let r = slice(v, 0, v.len());
        assert(r@ =~= v@);
        r
    }
}

/// Reads a `usize`; see [`parse_usize`].
fn usize_of(v: &Vec<char>) -> (r: Option<usize>)
    ensures
        r matches Some(n) ==> parse_usize(v@) == Some(n as nat),
        r is None ==> parse_usize(v@) is None,
{
    let b = drop_sign(v, '+', '+');
    if b.len() == 0 || !all_digits_exec(&b) {
        return None;
    }
    proof {
        crate::eval::lemma_digits_value_nonneg(b@);
    }
    assert(b@.len() > 0 && all_digits(b@));
    match digits_fit(&b) {
        Some(x) => if x <= usize::MAX as i128 {
            Some(x as usize)
        } else {
            None
        },
        None => None,
    }
}

/// Reads an `i32`; see [`parse_i32`].
fn i32_of(v: &Vec<char>) -> (r: Option<i32>)
    ensures
        r == parse_i32(v@),
{
    let neg = v.len() > 0 && v[0] == '-';
    let b = drop_sign(v, '+', '-');
    if b.len() == 0 || !all_digits_exec(&b) {
        return None;
    }
    proof {
        crate::eval::lemma_digits_value_nonneg(b@);
    }
    match digits_fit(&b) {
        Some(x) => {
            let y: i128 = if neg { -x } else { x };
            if i32::MIN as i128 <= y && y <= i32::MAX as i128 {
                Some(y as i32)
            } else {
                None
            }
        },
        None => None,
    }
}

/// The reference at `t[i]`; see [`ref_at`].
fn ref_at_exec(t: &Vec<char>, i: usize) -> (r: Option<(Vec<char>, usize)>)
    requires
        i < t.len(),
    ensures
        match ref_at(t@, i as int) {
            Some((name, end)) => r matches Some((n, e)) && n@ == name && e == end && i < e
                <= t.len(),
            None => r is None,
        },
{
    if t[i] != '$' {
        return None;
    }
    let j = i + 1;
    let s = if j < t.len() && t[j] == '{' && scan(t, j + 1, CharClass::RefName) > j + 1 {
        j + 1
    } else {
        j
    };
    let k = scan(t, s, CharClass::RefName);
    if k > s {
        let end = if k < t.len() && t[k] == '}' {
            k + 1
        } else {
            k
        };
        Some((slice(t, s, k), end))
    } else {
        None
    }
}

/// Runs a parsed program against an environment of variables.
pub struct Executor<'a> {
    vars: Vec<(Vec<char>, VarValue)>,
    expressions: &'a Vec<Expression>,
    args: Vec<String>,
    env: Vec<(String, String)>,
    output: Vec<String>,
}

pub open spec fn context_of(args: Seq<String>, env: Seq<(String, String)>) -> Context {
    Context {
        args: args.map_values(|a: String| a@),
        env: env.map_values(|p: (String, String)| (p.0@, p.1@)),
    }
}

pub open spec fn lines_of(v: Seq<String>) -> Seq<Seq<char>> {
    v.map_values(|l: String| l@)
}

impl<'a> Executor<'a> {
    /// The environment: each variable's name and value.
    pub closed spec fn vars_map(&self) -> Map<Seq<char>, Tagged> {
        env_of(self.vars@)
    }

    /// The arguments and environment variables that references may name.
    pub closed spec fn ctx(&self) -> Context {
        context_of(self.args@, self.env@)
    }

    /// The lines printed so far.
    pub closed spec fn printed(&self) -> Seq<Seq<char>> {
        lines_of(self.output@)
    }

    /// The program that runs.
    pub closed spec fn program(&self) -> Seq<Stmt> {
        stmts_view(self.expressions@)
    }

    pub closed spec fn wf(&self) -> bool {
        names_unique(self.vars@)
    }

    pub open spec fn state(&self) -> RunState {
        RunState { vars: self.vars_map(), out: self.printed() }
    }

    /// An executor for `expressions`, with the process's arguments (the
    /// first is the interpreter's own path) and environment variables. The
    /// environment starts with the top-level declarations, their values as
    /// written; declarations inside branches are bound only when they run.
    pub fn new(expressions: &'a Vec<Expression>, args: Vec<String>, env: Vec<(String, String)>) -> (r: Executor<'a>)
        ensures
            r.wf(),
            r.vars_map() == seed_from(stmts_view(expressions@), 0, Map::empty()),
            r.ctx() == context_of(args@, env@),
            r.printed() == Seq::<Seq<char>>::empty(),
            r.program() == stmts_view(expressions@),
    {
        let mut ex = Executor { vars: Vec::new(), expressions, args, env, output: Vec::new() };
        proof {
            assert(ex.vars_map() =~= Map::<Seq<char>, Tagged>::empty());
            assert(ex.printed() =~= Seq::<Seq<char>>::empty());
        }
        let mut i: usize = 0;
        while i < expressions.len()
            invariant
                i <= expressions.len(),
                ex.wf(),
                ex.expressions == expressions,
                ex.ctx() == context_of(args@, env@),
                ex.printed() == Seq::<Seq<char>>::empty(),
                seed_from(stmts_view(expressions@), i as int, ex.vars_map()) == seed_from(
                    stmts_view(expressions@),
                    0,
                    Map::empty(),
                ),
            decreases expressions.len() - i,
        {
            assert(stmts_view(expressions@)[i as int] == stmt_view(expressions@[i as int]));
            match &expressions[i] {
                Expression::Var(v) => {
                    let name = chars_of(v.name.as_str());
                    ex.bind(&name, v.value.duplicate());
                },
                _ => {},
            }
            i = i + 1;
        }
        ex
    }

    /// The lines printed so far, one per `echo` run.
    pub fn output(&self) -> (r: &Vec<String>)
        ensures
            lines_of(r@) == self.printed(),
    {
        &self.output
    }

    fn find(&self, name: &Vec<char>) -> (r: Option<usize>)
        requires
            self.wf(),
        ensures
            match r {
                Some(i) => i < self.vars@.len() && self.vars@[i as int].0@ == name@,
                None => !self.vars_map().contains_key(name@),
            },
    {
        let mut i: usize = 0;
        while i < self.vars.len()
            invariant
                i <= self.vars@.len(),
                forall|j: int| 0 <= j < i ==> #[trigger] self.vars@[j].0@ != name@,
            decreases self.vars.len() - i,
        {
            if same_chars(&self.vars[i].0, name) {
                return Some(i);
            }
            i = i + 1;
        }
        proof {
            lemma_env_of_contains(self.vars@, name@);
        }
        None
    }

    /// The value of variable `name`, if there is one.
    fn lookup(&self, name: &Vec<char>) -> (r: Option<VarValue>)
        requires
            self.wf(),
        ensures
            match r {
                Some(v) => self.vars_map().contains_key(name@) && v@ == self.vars_map()[name@],
                None => !self.vars_map().contains_key(name@),
            },
    {
        match self.find(name) {
            Some(i) => {
                proof {
                    lemma_env_of_index(self.vars@, i as int);
                }
                Some(self.vars[i].1.duplicate())
            },
            None => None,
        }
    }

    /// Binds `name` to `v`, replacing an earlier value.
    fn bind(&mut self, name: &Vec<char>, v: VarValue)
        requires
            old(self).wf(),
        ensures
            final(self).wf(),
            final(self).vars_map() == old(self).vars_map().insert(name@, v@),
            final(self).ctx() == old(self).ctx(),
            final(self).printed() == old(self).printed(),
            final(self).expressions == old(self).expressions,
    {
        let key = slice(name, 0, name.len());
        assert(key@ =~= name@);
        match self.find(name) {
            Some(i) => {
                proof {
                    lemma_env_of_update(self.vars@, i as int, (key, v));
                }
                self.vars.set(i, (key, v));
            },
            None => {
                proof {
                    lemma_env_of_push(self.vars@, (key, v));
                }
                self.vars.push((key, v));
            },
        }
    }

    /// The text a name outside the environment stands for; see [`outside_value`].
    fn outside_value_exec(&self, name: &Vec<char>) -> (r: Vec<char>)
        ensures
            r@ == outside_value(self.ctx(), name@),
    {
        let ghost ctx = self.ctx();
        assert(ctx.args.len() == self.args@.len());
        assert(ctx.env.len() == self.env@.len());
        match usize_of(name) {
            Some(n) => {
                assert(parse_usize(name@) == Some(n as nat));
                if self.args.len() > 0 && n < self.args.len() - 1 {
                    assert(ctx.args[n + 1] == self.args@[n + 1]@);
                    let r = chars_of(self.args[n + 1].as_str());
                    assert(r@ == outside_value(ctx, name@));
                    r
                } else {
                    let r = Vec::new();
                    assert(r@ =~= outside_value(ctx, name@));
                    r
                }
            },
            None => {
                let mut i: usize = 0;
                while i < self.env.len()
                    invariant
                        i <= self.env@.len(),
                        ctx == self.ctx(),
                        ctx.env.len() == self.env@.len(),
                        parse_usize(name@) is None,
                        env_var(ctx.env, name@, i as int) == env_var(ctx.env, name@, 0),
                    decreases self.env.len() - i,
                {
                    assert(ctx.env[i as int] == (self.env@[i as int].0@, self.env@[i as int].1@));
                    if same_chars(&chars_of(self.env[i].0.as_str()), name) {
                        let r = chars_of(self.env[i].1.as_str());
                        assert(env_var(ctx.env, name@, i as int) == ctx.env[i as int].1);
                        assert(r@ == outside_value(ctx, name@));
                        return r;
                    }
                    i = i + 1;
                }
                let r = Vec::new();
                assert(r@ =~= outside_value(ctx, name@));
                r
            },
        }
    }

    /// The value of reference `name`; see [`resolve_ref`].
    fn get_var_value(&self, name: &Vec<char>) -> (r: VarValue)
        requires
            self.wf(),
        ensures
            r@ == resolve_ref(self.vars_map(), self.ctx(), name@),
    {
        match self.lookup(name) {
            Some(v) => v,
            None => VarValue::from_chars_text(&self.outside_value_exec(name)),
        }
    }

    /// Expands the references in `s`; see [`expand`].
    pub fn eval_var_expansion(&self, s: &str) -> (r: VarValue)
        requires
            self.wf(),
        ensures
            r@ == expand(self.vars_map(), self.ctx(), s@),
    {
        let t = chars_of(s);
        let mut acc: Vec<char> = Vec::new();
        let mut i: usize = 0;
        while i < t.len()
            invariant
                self.wf(),
                i <= t.len(),
                t@ == s@,
                substitute_from(self.vars_map(), self.ctx(), t@, i as int, acc@) == substitute_from(
                    self.vars_map(),
                    self.ctx(),
                    t@,
                    0,
                    Seq::empty(),
                ),
            decreases t.len() - i,
        {
            match ref_at_exec(&t, i) {
                Some((name, end)) => {
                    let v = self.get_var_value(&name);
                    acc = concat(&acc, &v.text_chars());
                    i = end;
                },
                None => {
                    acc.push(t[i]);
                    i = i + 1;
                },
            }
        }
        match self.lookup(&acc) {
            Some(v) => v,
            None => {
                if acc.len() > 0 && acc[0] == '$' {
                    let rest = slice(&acc, 1, acc.len());
                    assert(rest@ =~= acc@.drop_first());
                    VarValue::from_chars_text(&self.outside_value_exec(&rest))
                } else {
                    VarValue::from_chars_text(&acc)
                }
            },
        }
    }

    /// The value of an operand of a condition; see [`operand`].
    fn found_var_or_create(&self, s: &str) -> (r: VarValue)
        requires
            self.wf(),
        ensures
            r@ == operand(self.vars_map(), self.ctx(), s@),
    {
        let t = chars_of(s);
        if let Some(v) = self.lookup(&t) {
            return v;
        }
        if t.len() > 0 && t[0] == '$' {
            let rest = slice(&t, 1, t.len());
            assert(rest@ =~= t@.drop_first());
            return VarValue::from_chars_text(&self.outside_value_exec(&rest));
        }
        match i32_of(&t) {
            Some(n) => VarValue::Int(n),
            None => {
                if same_chars(&t, &bool_chars(true)) {
                    VarValue::Bool(true)
                } else if same_chars(&t, &bool_chars(false)) {
                    VarValue::Bool(false)
                } else {
                    VarValue::from_chars_text(&t)
                }
            },
        }
    }

    /// Prints the expansion of `s`.
    fn eval_echo(&mut self, s: &str)
        requires
            old(self).wf(),
        ensures
            final(self).wf(),
            final(self).vars_map() == old(self).vars_map(),
            final(self).printed() == old(self).printed().push(
                tagged_text(expand(old(self).vars_map(), old(self).ctx(), s@)),
            ),
            final(self).ctx() == old(self).ctx(),
            final(self).expressions == old(self).expressions,
    {
        let r = self.eval_var_expansion(s);
        let line = r.to_text();
        let ghost before = self.output@;
        self.output.push(line);
        assert(lines_of(self.output@) =~= lines_of(before).push(line@));
    }

    /// Runs a declaration or an `echo`; see [`run_simple`].
    fn run_simple_exec(&mut self, e: &Expression)
        requires
            old(self).wf(),
        ensures
            final(self).wf(),
            final(self).state() == run_simple(old(self).state(), old(self).ctx(), stmt_view(*e)),
            final(self).ctx() == old(self).ctx(),
            final(self).expressions == old(self).expressions,
    {
        match e {
            Expression::Var(v) => {
                let nv = match &v.value {
                    VarValue::Str(t) => self.eval_var_expansion(t.as_str()),
                    other => other.duplicate(),
                };
                let name = chars_of(v.name.as_str());
                self.bind(&name, nv);
            },
            Expression::Echo(Echo(t)) => {
                self.eval_echo(t.as_str());
            },
            Expression::Condition(_) => {},
        }
    }

    /// Runs an `if` block; see [`run_stmt`].
    fn eval_condition(&mut self, con: &Condition) -> (r: Result<(), ExeError>)
        requires
            old(self).wf(),
            flat_stmt(Stmt::Cond(Box::new(con@))),
        ensures
            final(self).wf(),
            final(self).ctx() == old(self).ctx(),
            final(self).expressions == old(self).expressions,
            ({
                let (st, err) = run_stmt(old(self).state(), old(self).ctx(), Stmt::Cond(Box::new(con@)));
                &&& final(self).state() == st
                &&& match err {
                    Some(e) => r matches Err(ExeError::CompareExprErr(x)) && x@ == e,
                    None => r is Ok,
                }
            }),
    {
        let left = self.found_var_or_create(con.condition.left.as_str());
        let right = self.found_var_or_create(con.condition.right.as_str());
        match CompareExpr::cmp(&left, &right, &con.condition.operator) {
            Err(e) => Err(ExeError::CompareExprErr(e)),
            Ok(true) => {
                self.run_simple_exec(&con.if_expr);
                Ok(())
            },
            Ok(false) => {
                match &con.else_expr {
                    Some(b) => {
                        self.run_simple_exec(b);
                    },
                    None => {},
                }
                Ok(())
            },
        }
    }

    /// Runs the program once, in order, printing into [`Executor::output`];
    /// the first failing condition ends the run with its error. No branch of
    /// a block may itself be a block.
    pub fn execute(&mut self) -> (r: Result<(), ExeError>)
        requires
            old(self).wf(),
            flat_program(old(self).program()),
        ensures
            final(self).wf(),
            ({
                let (st, err) = run_from(old(self).program(), 0, old(self).state(), old(self).ctx());
                &&& final(self).state() == st
                &&& match err {
                    Some(e) => r matches Err(ExeError::CompareExprErr(x)) && x@ == e,
                    None => r is Ok,
                }
            }),
    {
        let exprs = self.expressions;
        let ghost prog = self.program();
        let ghost ctx = self.ctx();
        let ghost start = self.state();
        let mut i: usize = 0;
        assert(prog.len() == exprs@.len());
        while i < exprs.len()
            invariant
                self.wf(),
                prog.len() == exprs@.len(),
                prog == old(self).program(),
                start == old(self).state(),
                ctx == old(self).ctx(),
                self.expressions == exprs,
                prog == stmts_view(exprs@),
                flat_program(prog),
                ctx == self.ctx(),
                i <= exprs.len(),
                run_from(prog, i as int, self.state(), ctx) == run_from(prog, 0, start, ctx),
            decreases exprs.len() - i,
        {
            assert(prog[i as int] == stmt_view(exprs@[i as int]));
            let ghost pre = self.state();
            match &exprs[i] {
                Expression::Condition(c) => {
                    assert(stmt_view(exprs@[i as int]) == Stmt::Cond(Box::new(c@)));
                    match self.eval_condition(c) {
                        Ok(()) => {},
                        Err(e) => {
                            let ghost res = run_stmt(pre, ctx, Stmt::Cond(Box::new(c@)));
                            assert(self.state() == res.0);
                            assert(res.1 is Some);
                            assert(prog[i as int] == Stmt::Cond(Box::new(c@)));
                            assert(run_from(prog, i as int, pre, ctx) == res);
                            return Err(e);
                        },
                    }
                },
                e => {
                    self.run_simple_exec(e);
                },
            }
            i = i + 1;
        }
        Ok(())
    }
}

/// Text without `$` comes out of substitution unchanged.
proof fn lemma_substitute_plain(
    vars: Map<Seq<char>, Tagged>,
    ctx: Context,
    t: Seq<char>,
    i: int,
    acc: Seq<char>,
)
    requires
        0 <= i <= t.len(),
        forall|j: int| 0 <= j < t.len() ==> #[trigger] t[j] != '$',
    ensures
        substitute_from(vars, ctx, t, i, acc) == acc + t.subrange(i, t.len() as int),
    decreases t.len() - i,
{
    if i < t.len() {
        lemma_substitute_plain(vars, ctx, t, i + 1, acc.push(t[i]));
        assert(acc.push(t[i]) + t.subrange(i + 1, t.len() as int) =~= acc + t.subrange(
            i,
            t.len() as int,
        ));
    } else {
        assert(acc + t.subrange(i, t.len() as int) =~= acc);
    }
}

/// A name that a declaration accepts and that references can spell: not
/// empty, with no whitespace, `:` or `$`.
pub open spec fn plain_name(name: Seq<char>) -> bool {
    &&& name.len() > 0
    &&& forall|i: int| 0 <= i < name.len() ==> {
        &&& !is_ws(#[trigger] name[i])
        &&& name[i] != ':'
        &&& name[i] != '$'
    }
}

/// The declaration `name : str = 'v'`.
pub open spec fn text_decl(name: Seq<char>, v: Seq<char>) -> Seq<char> {
    name + seq![' ', ':', ' ', 's', 't', 'r', ' ', '=', ' ', '\''] + v + seq!['\'']
}

/// The parsing half of [`lemma_text_decl_expands`].
#[verifier::rlimit(40)]
proof fn lemma_text_decl_parses(name: Seq<char>, v: Seq<char>)
    requires
        plain_name(name),
    ensures
        parse_decl(text_decl(name, v)) == Ok::<VarModel, crate::variables::VarErrModel>(
            VarModel { name, value: Tagged::Text(v) },
        ),
{
    let s = text_decl(name, v);
    let n = name.len() as int;
    let mid = seq![' ', ':', ' ', 's', 't', 'r', ' ', '=', ' ', '\''];
    assert(s.len() == n + 11 + v.len());
    assert forall|j: int| 0 <= j < n implies s[j] == name[j] by {}
    assert forall|j: int| 0 <= j < 10 implies s[n + j] == mid[j] by {}
    assert forall|j: int| 0 <= j < v.len() implies s[n + 10 + j] == v[j] by {}
    assert(s[s.len() - 1] == '\'');
    assert(s[0] == name[0]);
    lemma_trim_unchanged(s);
    assert(trim(s) == s);
    lemma_run_end_exact(s, 0, n, CharClass::Name);
    lemma_run_end_exact(s, n, n + 1, CharClass::Space);
    lemma_run_end_exact(s, n + 2, n + 3, CharClass::Space);
    lemma_run_end_exact(s, n + 3, n + 6, CharClass::TypeName);
    lemma_run_end_exact(s, n + 6, n + 7, CharClass::Space);
    let rest = s.subrange(n + 8, s.len() as int);
    let q = s.subrange(n + 9, s.len() as int);
    assert(q =~= seq!['\''] + v + seq!['\'']);
    assert(rest =~= seq![' '] + q);
    lemma_trim_unchanged(q);
    lemma_run_end_exact(rest, 0, 1, CharClass::Space);
    assert(crate::text::skip_ws_back(rest, rest.len() as int) == rest.len());
    assert(rest.subrange(1, rest.len() as int) =~= q);
    assert(trim(rest) == q);
    assert(s.subrange(0, n) =~= name);
    assert(s.subrange(n + 3, n + 6) =~= crate::variables::kw_str());
    assert(strip_quotes(q) =~= v);
}

/// A declaration `name : str = 'v'` parses to the text `v`, without its
/// quotes; and in the environment that this declaration seeds, expanding
/// `name` gives `v` back, whatever `v` holds.
pub proof fn lemma_text_decl_expands(name: Seq<char>, v: Seq<char>, ctx: Context)
    requires
        plain_name(name),
    ensures
        parse_decl(text_decl(name, v)) == Ok::<VarModel, crate::variables::VarErrModel>(
            VarModel { name, value: Tagged::Text(v) },
        ),
        expand(
            seed_from(seq![Stmt::Var(VarModel { name, value: Tagged::Text(v) })], 0, Map::empty()),
            ctx,
            name,
        ) == Tagged::Text(v),
{
    lemma_text_decl_parses(name, v);
    let n = name.len() as int;
    let vars = seed_from(
        seq![Stmt::Var(VarModel { name, value: Tagged::Text(v) })],
        0,
        Map::empty(),
    );
    let ss = seq![Stmt::Var(VarModel { name, value: Tagged::Text(v) })];
    let one = Map::<Seq<char>, Tagged>::empty().insert(name, Tagged::Text(v));
    assert(seed_from(ss, 1, one) == one);
    assert(vars == one);
    lemma_substitute_plain(vars, ctx, name, 0, Seq::empty());
    assert(Seq::<char>::empty() + name.subrange(0, n) =~= name);
}

/// No parsed line that stands alone is an `if` block.
proof fn lemma_parse_line_not_block(l: Seq<char>)
    ensures
        parse_line(l) matches Ok(st) ==> !(st is Cond),
{
}

/// Parsing keeps every block flat when the statements before were flat.
proof fn lemma_parse_from_flat(lines: Seq<Seq<char>>, i: int, acc: Seq<Stmt>)
    requires
        flat_program(acc),
    ensures
        parse_program_from(lines, i, acc) matches Ok(ss) ==> flat_program(ss),
    decreases lines.len() - i,
{
    if 0 <= i < lines.len() {
        let l = lines[i];
        if decl_parts(trim(l)) is Some || crate::echo::parse_echo(l) is Ok
            || !crate::conditions::is_if_line(l) {
            if let Ok(st) = parse_line(l) {
                lemma_parse_line_not_block(l);
                assert(flat_program(acc.push(st))) by {
                    assert forall|k: int| 0 <= k < acc.push(st).len() implies flat_stmt(
                        #[trigger] acc.push(st)[k],
                    ) by {
                        if k < acc.len() {
                            assert(acc.push(st)[k] == acc[k]);
                        }
                    }
                }
                lemma_parse_from_flat(lines, i + 1, acc.push(st));
            }
        } else {
            if let Ok((text, j)) = crate::conditions::scan_block(lines, i) {
                if let Ok(c) = parse_block(text) {
                    if j > i {
                        let st = Stmt::Cond(Box::new(c));
                        let p = crate::conditions::block_parts(crate::text::source_lines(text))->0;
                        lemma_parse_line_not_block(p.if_body);
                        if let Some(x) = p.else_body {
                            lemma_parse_line_not_block(x);
                        }
                        assert(flat_stmt(st));
                        assert(flat_program(acc.push(st))) by {
                            assert forall|k: int| 0 <= k < acc.push(st).len() implies flat_stmt(
                                #[trigger] acc.push(st)[k],
                            ) by {
                                if k < acc.len() {
                                    assert(acc.push(st)[k] == acc[k]);
                                }
                            }
                        }
                        lemma_parse_from_flat(lines, j + 1, acc.push(st));
                    }
                }
            }
        }
    }
}

/// Every program that parses can run: no branch of its blocks is a block.
pub proof fn lemma_parsed_program_is_flat(s: Seq<char>)
    ensures
        parse_program(s) matches Ok(ss) ==> flat_program(ss),
{
    lemma_parse_from_flat(crate::text::source_lines(s), 0, Seq::empty());
}

} // verus!
