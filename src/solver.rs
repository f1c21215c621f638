//! The evaluator and its environment of variables and functions.

use vstd::prelude::*;
use crate::ast::{deep_eq, Expr};
use crate::error::{CellError, EvalError};
use crate::ops::apply;
use crate::rules::{full_outcome, first_uneven_row, success, in_grid, lemma_cells_decrease, listed, outcome, rectangular, row_major, same_shape, width};

verus! {

/// The lower-case form of a name, as `str::to_lowercase` gives it.
pub uninterp spec fn lower_of(s: Seq<char>) -> Seq<char>;

/// Relies on `str::to_lowercase`: its result depends on the characters alone.
#[verifier::external_body]
fn lowercase(s: &str) -> (r: String)
    ensures
        r@ == lower_of(s@),
{
    s.to_lowercase()
}

/// How deeply function applications may nest during one evaluation.
pub const MAX_DEPTH: u64 = 256;

struct Binding {
    name: String,
    value: Expr,
}

struct Definition {
    name: String,
    param: String,
    body: Expr,
}

/// The evaluator and its environment: variables bound to values, and
/// functions bound to a parameter name and a body; names are lower-cased.
pub struct Solver {
    vars: Vec<Binding>,
    funcs: Vec<Definition>,
}

impl Solver {
    #[verifier::type_invariant]
    closed spec fn wf(&self) -> bool {
        &&& forall|i: int, j: int|
            0 <= i < j < self.vars.len() ==> #[trigger] self.vars[i].name@ != #[trigger] self.vars[j].name@
        &&& forall|i: int, j: int|
            0 <= i < j < self.funcs.len() ==> #[trigger] self.funcs[i].name@ != #[trigger] self.funcs[j].name@
    }

    /// The value bound to a (lower-case) variable name.
    pub closed spec fn variable(self, name: Seq<char>) -> Option<Expr> {
        if exists|i: int| 0 <= i < self.vars.len() && #[trigger] self.vars[i].name@ == name {
            Some(self.vars[choose|i: int| 0 <= i < self.vars.len() && #[trigger] self.vars[i].name@ == name].value)
        } else {
            None
        }
    }

    /// The parameter and body bound to a (lower-case) function name.
    pub closed spec fn function(self, name: Seq<char>) -> Option<(String, Expr)> {
        if exists|i: int| 0 <= i < self.funcs.len() && #[trigger] self.funcs[i].name@ == name {
            let i = choose|i: int| 0 <= i < self.funcs.len() && #[trigger] self.funcs[i].name@ == name;
            Some((self.funcs[i].param, self.funcs[i].body))
        } else {
            None
        }
    }
}

/// The name under which `s` is looked up: as it stands inside a function body,
/// whose names cleaning has lower-cased already, and lower-cased elsewhere.
pub open spec fn lookup_name(s: Seq<char>, bound: Option<(String, Expr)>) -> Seq<char> {
    if bound is Some {
        s
    } else {
        lower_of(s)
    }
}

/// Whether `bound` binds the parameter `name`.
pub open spec fn binds(bound: Option<(String, Expr)>, name: Seq<char>) -> bool {
    match bound {
        Some((p, _)) => p@ == name,
        None => false,
    }
}

/// The parameter of a definition bound to an argument.
pub open spec fn bind(def: (String, Expr), v: Expr) -> Option<(String, Expr)> {
    Some((def.0, v))
}

/// The argument bound to the parameter.
pub open spec fn bound_value(bound: Option<(String, Expr)>) -> Expr {
    match bound {
        Some((_, v)) => v,
        None => Expr::Imaginary,
    }
}

/// The evaluation of `e` in `env` is `r`, where `bound` binds a function's
/// parameter to its argument and `depth` more function applications may nest.
pub open spec fn evaluates(env: Solver, e: Expr, bound: Option<(String, Expr)>, depth: nat, r: Result<Expr, EvalError>) -> bool
    decreases depth, e,
    via evaluates_decreases
{
    match e {
        Expr::Number(_) => r == Ok::<Expr, EvalError>(e),
        Expr::Imaginary => r == Ok::<Expr, EvalError>(e),
        Expr::Complex(a, b) => r == Ok::<Expr, EvalError>(if b.is_zero_value() { Expr::Number(a) } else { e }),
        Expr::Matrix(rows) => if !rectangular(rows) {
            exists|k: int|
                #[trigger] first_uneven_row(rows, k) && r == Err::<Expr, EvalError>(
                    EvalError::DimensionMismatch { expected: width(rows) as usize, found: rows[k].len() },
                )
        } else {
            match r {
                Ok(Expr::Matrix(m)) => same_shape(m, rows) && forall|i: int, j: int|
                    in_grid(rows, i, j) ==> evaluates(env, rows[i][j], bound, depth, Ok(#[trigger] m[i][j])),
                Err(EvalError::Cells { failures: list, partial: m }) => list.len() > 0 && row_major(list@) && (forall|k: int| 0 <= k < list.len() ==> m[(#[trigger] list[k]).y as int][list[k].x as int] == Expr::Number(crate::number::Number::from_int(0)))
                    && (forall|k: int|
                    0 <= k < list.len() ==> in_grid(rows, #[trigger] list[k].y as int, list[k].x as int)
                        && evaluates(env, rows[list[k].y as int][list[k].x as int], bound, depth, Err(list[k].error)))
                    && same_shape(m, rows) && (forall|i: int, j: int| in_grid(rows, i, j) ==> listed(list@, i, j)
                    || evaluates(env, rows[i][j], bound, depth, Ok(#[trigger] m[i][j]))),
                _ => false,
            }
        },
        Expr::Variable(s) => if binds(bound, lookup_name(s@, bound)) {
            r matches Ok(w) && deep_eq(w, bound_value(bound))
        } else {
            match env.variable(lookup_name(s@, bound)) {
                Some(v) => r matches Ok(w) && deep_eq(w, v),
                None => r == Ok::<Expr, EvalError>(e),
            }
        },
        Expr::Function(f, arg) => match env.function(lookup_name(f@, bound)) {
            None => r == Err::<Expr, EvalError>(EvalError::UndefinedFunction(f)),
            Some(def) => if depth == 0 {
                r == Err::<Expr, EvalError>(EvalError::RecursionLimit(f))
            } else {
                (exists|v: Expr|
                    evaluates(env, *arg, bound, depth, Ok(v)) && evaluates(env, def.1, #[trigger] bind(def, v), (depth - 1) as nat, r))
                    || (r matches Err(x) && evaluates(env, *arg, bound, depth, Err(x)))
            },
        },
        Expr::Op(a, op, b) => (exists|u: Expr, w: Expr|
            evaluates(env, *a, bound, depth, Ok(u)) && evaluates(env, *b, bound, depth, Ok(w)) && #[trigger] full_outcome(op, u, w, r))
            || (r matches Err(x) && (evaluates(env, *a, bound, depth, Err(x)) || exists|u: Expr|
            evaluates(env, *a, bound, depth, #[trigger] success(u)) && evaluates(env, *b, bound, depth, Err(x)))),
    }
}

#[via_fn]
proof fn evaluates_decreases(env: Solver, e: Expr, bound: Option<(String, Expr)>, depth: nat, r: Result<Expr, EvalError>) {
    if let Expr::Matrix(rows) = e {
        lemma_cells_decrease(rows);
    }
}

impl Solver {
    /// An evaluator with no variables and no functions.
    pub fn new() -> (r: Solver)
        ensures
            forall|name: Seq<char>| r.variable(name) is None && r.function(name) is None,
    {
        Solver { vars: Vec::new(), funcs: Vec::new() }
    }

    fn find_var(&self, name: &String) -> (r: Option<usize>)
        ensures
            r matches Some(i) ==> i < self.vars.len() && self.vars[i as int].name@ == name@ && self.variable(name@) == Some(self.vars[i as int].value),
            r is None ==> self.variable(name@) is None,
    {
        proof {
            use_type_invariant(self);
        }
        let mut i: usize = 0;
        while i < self.vars.len()
            invariant
                i <= self.vars.len(),
                forall|k: int| 0 <= k < i ==> #[trigger] self.vars[k].name@ != name@,
            decreases self.vars.len() - i,
        {
            if self.vars[i].name == *name {
                proof {
                    use_type_invariant(self);
                }
                let ghost j = choose|j: int| 0 <= j < self.vars.len() && #[trigger] self.vars[j].name@ == name@;
                assert(j == i as int) by {
                    if j != i as int {
                        if j < i {
                            assert(self.vars[j].name@ != self.vars[i as int].name@);
                        } else {
                            assert(self.vars[i as int].name@ != self.vars[j].name@);
                        }
                    }
                }
                return Some(i);
            }
            i = i + 1;
        }
        None
    }

    fn find_func(&self, name: &String) -> (r: Option<usize>)
        ensures
            r matches Some(i) ==> i < self.funcs.len() && self.funcs[i as int].name@ == name@ && self.function(name@) == Some(
                (self.funcs[i as int].param, self.funcs[i as int].body),
            ),
            r is None ==> self.function(name@) is None,
    {
        proof {
            use_type_invariant(self);
        }
        let mut i: usize = 0;
        while i < self.funcs.len()
            invariant
                i <= self.funcs.len(),
                forall|k: int| 0 <= k < i ==> #[trigger] self.funcs[k].name@ != name@,
            decreases self.funcs.len() - i,
        {
            if self.funcs[i].name == *name {
                proof {
                    use_type_invariant(self);
                }
                let ghost j = choose|j: int| 0 <= j < self.funcs.len() && #[trigger] self.funcs[j].name@ == name@;
                assert(j == i as int) by {
                    if j != i as int {
                        if j < i {
                            assert(self.funcs[j].name@ != self.funcs[i as int].name@);
                        } else {
                            assert(self.funcs[i as int].name@ != self.funcs[j].name@);
                        }
                    }
                }
                return Some(i);
            }
            i = i + 1;
        }
        None
    }

    fn eval_in(&self, e: &Expr, bound: &Option<(String, Expr)>, depth: u64) -> (r: Result<Expr, EvalError>)
        ensures
            evaluates(*self, *e, *bound, depth as nat, r),
        decreases depth, e,
    {
        match e {
            Expr::Number(n) => Ok(Expr::Number(*n)),
            Expr::Imaginary => Ok(Expr::Imaginary),
            Expr::Complex(a, b) => {
                if b.is_zero() {
                    Ok(Expr::Number(*a))
                } else {
                    Ok(Expr::Complex(*a, *b))
                }
            },
            Expr::Matrix(rows) => self.eval_rows(e, rows, bound, depth),
            Expr::Variable(s) => {
                let key = if bound.is_some() {
                    s.clone()
                } else {
                    lowercase(s.as_str())
                };
                if let Some((p, v)) = bound {
                    if key == *p {
                        return Ok(v.copy());
                    }
                }
                match self.find_var(&key) {
                    Some(i) => Ok(self.vars[i].value.copy()),
                    None => Ok(Expr::Variable(s.clone())),
                }
            },
            Expr::Function(f, arg) => {
                let key = if bound.is_some() {
                    f.clone()
                } else {
                    lowercase(f.as_str())
                };
                match self.find_func(&key) {
                    None => Err(EvalError::UndefinedFunction(f.clone())),
                    Some(i) => {
                        if depth == 0 {
                            return Err(EvalError::RecursionLimit(f.clone()));
                        }
                        let v = self.eval_in(arg, bound, depth)?;
                        let ghost gv = v;
                        let def = &self.funcs[i];
                        let inner = Some((def.param.clone(), v));
                        let r = self.eval_in(&def.body, &inner, depth - 1);
                        let ghost d = self.function(lookup_name(f@, *bound))->Some_0;
                        assert(inner == bind(d, gv));
                        r
                    },
                }
            },
            Expr::Op(a, op, b) => {
                let l = self.eval_in(a, bound, depth);
                let r = self.eval_in(b, bound, depth);
                match l {
                    Err(x) => Err(x),
                    Ok(u) => match r {
                        Err(x) => {
                            assert(evaluates(*self, **a, *bound, depth as nat, success(u)));
                            Err(x)
                        },
                        Ok(w) => {
                            apply(*op, u, w)
                        },
                    },
                }
            },
        }
    }

    /// Evaluates every cell of a matrix `e` whose rows are `rows`.
    fn eval_rows(&self, e: &Expr, rows: &Vec<Vec<Expr>>, bound: &Option<(String, Expr)>, depth: u64) -> (r: Result<Expr, EvalError>)
        requires
            *e == Expr::Matrix(*rows),
        ensures
            evaluates(*self, *e, *bound, depth as nat, r),
        decreases depth, e, 0nat,
    {
        let w = if rows.len() == 0 {
            0
        } else {
            rows[0].len()
        };
        let mut i: usize = 0;
        while i < rows.len()
            invariant
                *e == Expr::Matrix(*rows),
                i <= rows.len(),
                w == width(*rows),
                forall|k: int| 0 <= k < i ==> #[trigger] rows[k].len() == w,
            decreases rows.len() - i,
        {
            if rows[i].len() != w {
                assert(!rectangular(*rows));
                assert(first_uneven_row(*rows, i as int));
                return Err(EvalError::DimensionMismatch { expected: w, found: rows[i].len() });
            }
            i = i + 1;
        }
        proof {
            lemma_cells_decrease(*rows);
        }
        let n = rows.len();
        let mut res: Vec<Vec<Expr>> = Vec::new();
        let mut errors: Vec<CellError> = Vec::new();
        let mut y: usize = 0;
        while y < n
            invariant
                *e == Expr::Matrix(*rows),
                rectangular(*rows),
                n == rows.len(),
                y <= n,
                res.len() == y,
                forall|k: int| 0 <= k < y ==> #[trigger] res[k].len() == rows[k].len(),
                forall|i: int, j: int|
                    0 <= i < y && 0 <= j < rows[i].len() ==> listed(errors@, i, j) || evaluates(
                        *self, rows[i][j], *bound, depth as nat, Ok(#[trigger] res[i][j])),
                forall|k: int|
                    0 <= k < errors.len() ==> #[trigger] errors[k].y < y && in_grid(*rows, errors[k].y as int, errors[k].x as int)
                        && evaluates(*self, rows[errors[k].y as int][errors[k].x as int], *bound, depth as nat, Err(errors[k].error)),
                row_major(errors@),
                forall|k: int| #![trigger errors[k]] 0 <= k < errors.len() ==> res[errors[k].y as int][errors[k].x as int] == Expr::Number(crate::number::Number::from_int(0)),
                forall|i: int, j: int| in_grid(*rows, i, j) ==> decreases_to!(Expr::Matrix(*rows) => #[trigger] rows[i][j]),
            decreases n - y,
        {
            let m = rows[y].len();
            let mut line: Vec<Expr> = Vec::new();
            let mut x: usize = 0;
            while x < m
                invariant
                    *e == Expr::Matrix(*rows),
                    rectangular(*rows),
                    n == rows.len(),
                    y < n,
                    x <= m,
                    m == rows[y as int].len(),
                    res.len() == y,
                    forall|k: int| 0 <= k < y ==> #[trigger] res[k].len() == rows[k].len(),
                    line.len() == x,
                    forall|i: int, j: int|
                        0 <= i < y && 0 <= j < rows[i].len() ==> listed(errors@, i, j) || evaluates(
                            *self, rows[i][j], *bound, depth as nat, Ok(#[trigger] res[i][j])),
                    forall|j: int|
                        0 <= j < x ==> listed(errors@, y as int, j) || evaluates(
                            *self, rows[y as int][j], *bound, depth as nat, Ok(#[trigger] line[j])),
                    forall|k: int|
                        0 <= k < errors.len() ==> (#[trigger] errors[k].y < y || (errors[k].y == y && errors[k].x < x))
                            && in_grid(*rows, errors[k].y as int, errors[k].x as int)
                            && evaluates(*self, rows[errors[k].y as int][errors[k].x as int], *bound, depth as nat, Err(errors[k].error)),
                    row_major(errors@),
                    forall|k: int|
                        #![trigger errors[k]]
                        0 <= k < errors.len() ==> if errors[k].y < y {
                            res[errors[k].y as int][errors[k].x as int] == Expr::Number(crate::number::Number::from_int(0))
                        } else {
                            line[errors[k].x as int] == Expr::Number(crate::number::Number::from_int(0))
                        },
                    forall|i: int, j: int| in_grid(*rows, i, j) ==> decreases_to!(Expr::Matrix(*rows) => #[trigger] rows[i][j]),
                decreases m - x,
            {
                assert(in_grid(*rows, y as int, x as int));
                let ghost before = errors@;
                match self.eval_in(&rows[y][x], bound, depth) {
                    Ok(v) => {
                        line.push(v);
                    },
                    Err(err) => {
                        let ce = CellError { x, y, error: err };
                        errors.push(ce);
                        proof {
                            crate::ops::lemma_listed_grows(before, ce);
                        }
                        line.push(Expr::Number(crate::number::Number::new(0)));
                    },
                }
                x = x + 1;
            }
            let ghost old_res = res@;
            res.push(line);
            assert(forall|k: int| 0 <= k < y ==> res[k] == old_res[k]);
            y = y + 1;
        }
        assert(same_shape(res, *rows));
        if errors.len() == 0 {
            assert forall|i: int, j: int| in_grid(*rows, i, j) implies evaluates(*self, rows[i][j], *bound, depth as nat, Ok(#[trigger] res[i][j])) by {
                assert(!listed(errors@, i, j));
            }
            Ok(Expr::Matrix(res))
        } else {
            Err(EvalError::Cells { failures: errors, partial: res })
        }
    }

    /// Evaluates an expression in the environment.
    pub fn eval(&self, expr: Expr) -> (r: Result<Expr, EvalError>)
        ensures
            evaluates(*self, expr, None, MAX_DEPTH as nat, r),
    {
        self.eval_in(&expr, &None, MAX_DEPTH)
    }
}

} // verus!

verus! {

/// Cleaning the body `e` of function `fun` gives `r`: names are lower-cased,
/// and an application of `fun` anywhere in the body is a recursive definition.
pub open spec fn cleans(fun: Seq<char>, e: Expr, r: Result<Expr, EvalError>) -> bool
    decreases e,
    via cleans_decreases
{
    match e {
        Expr::Variable(a) => r matches Ok(Expr::Variable(t)) && t@ == lower_of(a@),
        Expr::Function(s, arg) => if lower_of(s@) == fun {
            r == Err::<Expr, EvalError>(EvalError::RecursiveDefinition(s))
        } else {
            match r {
                Ok(Expr::Function(t, a2)) => t@ == lower_of(s@) && cleans(fun, *arg, Ok(*a2)),
                Ok(_) => false,
                Err(x) => cleans(fun, *arg, Err(x)),
            }
        },
        Expr::Op(a, op, b) => match r {
            Ok(Expr::Op(l, o, rr)) => o == op && cleans(fun, *a, Ok(*l)) && cleans(fun, *b, Ok(*rr)),
            Ok(_) => false,
            Err(x) => cleans(fun, *a, Err(x)) || cleans(fun, *b, Err(x)),
        },
        Expr::Matrix(rows) => match r {
            Ok(Expr::Matrix(m)) => same_shape(m, rows) && forall|i: int, j: int|
                in_grid(rows, i, j) ==> cleans(fun, rows[i][j], Ok(#[trigger] m[i][j])),
            Err(EvalError::Cells { failures: list, partial: m }) => list.len() > 0 && row_major(list@) && (forall|k: int| 0 <= k < list.len() ==> m[(#[trigger] list[k]).y as int][list[k].x as int] == Expr::Number(crate::number::Number::from_int(0))) && (forall|k: int|
                0 <= k < list.len() ==> in_grid(rows, #[trigger] list[k].y as int, list[k].x as int) && cleans(
                    fun,
                    rows[list[k].y as int][list[k].x as int],
                    Err(list[k].error),
                )) && same_shape(m, rows) && (forall|i: int, j: int|
                in_grid(rows, i, j) ==> listed(list@, i, j) || cleans(fun, rows[i][j], Ok(#[trigger] m[i][j]))),
            _ => false,
        },
        _ => r == Ok::<Expr, EvalError>(e),
    }
}

#[via_fn]
proof fn cleans_decreases(fun: Seq<char>, e: Expr, r: Result<Expr, EvalError>) {
    if let Expr::Matrix(rows) = e {
        lemma_cells_decrease(rows);
    }
}

/// Lower-cases the names in a function body and rejects an application of
/// the function being defined.
fn clean(fun: &String, e: &Expr) -> (r: Result<Expr, EvalError>)
    ensures
        cleans(fun@, *e, r),
    decreases e,
{
    match e {
        Expr::Variable(a) => Ok(Expr::Variable(lowercase(a.as_str()))),
        Expr::Function(s, arg) => {
            let key = lowercase(s.as_str());
            if key == *fun {
                return Err(EvalError::RecursiveDefinition(s.clone()));
            }
            let a2 = clean(fun, arg)?;
            Ok(Expr::Function(key, Box::new(a2)))
        },
        Expr::Op(a, op, b) => {
            let l = clean(fun, a)?;
            let rr = clean(fun, b)?;
            Ok(Expr::Op(Box::new(l), *op, Box::new(rr)))
        },
        Expr::Matrix(rows) => clean_rows(fun, e, rows),
        Expr::Number(n) => Ok(Expr::Number(*n)),
        Expr::Imaginary => Ok(Expr::Imaginary),
        Expr::Complex(a, b) => Ok(Expr::Complex(*a, *b)),
    }
}

} // verus!

verus! {

proof fn lemma_variable_at(s: Solver, i: int)
    requires
        s.wf(),
        0 <= i < s.vars.len(),
    ensures
        s.variable(s.vars[i].name@) == Some(s.vars[i].value),
{
    let n = s.vars[i].name@;
    let k = choose|k: int| 0 <= k < s.vars.len() && #[trigger] s.vars[k].name@ == n;
    if k != i {
        if k < i {
            assert(s.vars[k].name@ != s.vars[i].name@);
        } else {
            assert(s.vars[i].name@ != s.vars[k].name@);
        }
    }
}

proof fn lemma_function_at(s: Solver, i: int)
    requires
        s.wf(),
        0 <= i < s.funcs.len(),
    ensures
        s.function(s.funcs[i].name@) == Some((s.funcs[i].param, s.funcs[i].body)),
{
    let n = s.funcs[i].name@;
    let k = choose|k: int| 0 <= k < s.funcs.len() && #[trigger] s.funcs[k].name@ == n;
    if k != i {
        if k < i {
            assert(s.funcs[k].name@ != s.funcs[i].name@);
        } else {
            assert(s.funcs[i].name@ != s.funcs[k].name@);
        }
    }
}

impl Solver {
    /// Binds a variable, replacing an earlier binding of the same name.
    fn set_var(&mut self, name: String, value: Expr)
        ensures
            final(self).variable(name@) == Some(value),
            forall|n: Seq<char>| n != name@ ==> #[trigger] final(self).variable(n) == old(self).variable(n),
            forall|n: Seq<char>| #[trigger] final(self).function(n) == old(self).function(n),
    {
        proof {
            use_type_invariant(&*self);
        }
        let ghost before = *self;
        assert(before.wf());
        let found = self.find_var(&name);
        let ghost n0 = name@;
        let mut old_self = Solver { vars: Vec::new(), funcs: Vec::new() };
        std::mem::swap(self, &mut old_self);
        let Solver { mut vars, funcs } = old_self;
        match found {
            Some(i) => {
                vars.set(i, Binding { name, value });
            },
            None => {
                vars.push(Binding { name, value });
            },
        }
        proof {
            assert(forall|i: int, j: int|
                0 <= i < j < vars.len() ==> #[trigger] vars[i].name@ != #[trigger] vars[j].name@) by {
                assert forall|i: int, j: int| 0 <= i < j < vars.len() implies #[trigger] vars[i].name@ != #[trigger] vars[j].name@ by {
                    if found is None {
                        if j == before.vars.len() {
                            assert(before.vars[i].name@ != n0);
                        } else {
                            assert(before.vars[i].name@ != before.vars[j].name@);
                        }
                    } else {
                        assert(before.vars[i].name@ != before.vars[j].name@);
                    }
                }
            }
        }
        *self = Solver { vars, funcs };
        proof {
            let after = *self;
            assert(after.wf());
            let idx = if found is Some { found->Some_0 as int } else { before.vars.len() as int };
            assert(after.vars[idx].name@ == n0);
            lemma_variable_at(after, idx);
            assert forall|n: Seq<char>| n != n0 implies #[trigger] after.variable(n) == before.variable(n) by {
                if before.variable(n) is Some {
                    let k = choose|k: int| 0 <= k < before.vars.len() && #[trigger] before.vars[k].name@ == n;
                    assert(after.vars[k] == before.vars[k]);
                    lemma_variable_at(before, k);
                    lemma_variable_at(after, k);
                } else {
                    assert forall|k: int| 0 <= k < after.vars.len() implies #[trigger] after.vars[k].name@ != n by {
                        if k != idx {
                            assert(after.vars[k] == before.vars[k]);
                        }
                    }
                }
            }
            assert forall|n: Seq<char>| #[trigger] after.function(n) == before.function(n) by {
                assert(after.funcs == before.funcs);
            }
        }
    }

    /// Binds a function, replacing an earlier definition of the same name.
    fn set_func(&mut self, name: String, param: String, body: Expr)
        ensures
            final(self).function(name@) == Some((param, body)),
            forall|n: Seq<char>| n != name@ ==> #[trigger] final(self).function(n) == old(self).function(n),
            forall|n: Seq<char>| #[trigger] final(self).variable(n) == old(self).variable(n),
    {
        proof {
            use_type_invariant(&*self);
        }
        let ghost before = *self;
        assert(before.wf());
        let found = self.find_func(&name);
        let ghost n0 = name@;
        let mut old_self = Solver { vars: Vec::new(), funcs: Vec::new() };
        std::mem::swap(self, &mut old_self);
        let Solver { vars, mut funcs } = old_self;
        match found {
            Some(i) => {
                funcs.set(i, Definition { name, param, body });
            },
            None => {
                funcs.push(Definition { name, param, body });
            },
        }
        proof {
            assert(forall|i: int, j: int|
                0 <= i < j < funcs.len() ==> #[trigger] funcs[i].name@ != #[trigger] funcs[j].name@) by {
                assert forall|i: int, j: int| 0 <= i < j < funcs.len() implies #[trigger] funcs[i].name@ != #[trigger] funcs[j].name@ by {
                    if found is None {
                        if j == before.funcs.len() {
                            assert(before.funcs[i].name@ != n0);
                        } else {
                            assert(before.funcs[i].name@ != before.funcs[j].name@);
                        }
                    } else {
                        assert(before.funcs[i].name@ != before.funcs[j].name@);
                    }
                }
            }
        }
        *self = Solver { vars, funcs };
        proof {
            let after = *self;
            assert(after.wf());
            let idx = if found is Some { found->Some_0 as int } else { before.funcs.len() as int };
            assert(after.funcs[idx].name@ == n0);
            lemma_function_at(after, idx);
            assert forall|n: Seq<char>| n != n0 implies #[trigger] after.function(n) == before.function(n) by {
                if before.function(n) is Some {
                    let k = choose|k: int| 0 <= k < before.funcs.len() && #[trigger] before.funcs[k].name@ == n;
                    assert(after.funcs[k] == before.funcs[k]);
                    lemma_function_at(before, k);
                    lemma_function_at(after, k);
                } else {
                    assert forall|k: int| 0 <= k < after.funcs.len() implies #[trigger] after.funcs[k].name@ != n by {
                        if k != idx {
                            assert(after.funcs[k] == before.funcs[k]);
                        }
                    }
                }
            }
            assert forall|n: Seq<char>| #[trigger] after.variable(n) == before.variable(n) by {
                assert(after.vars == before.vars);
            }
        }
    }
}

} // verus!

verus! {

/// Assigning `expr` to `left` in `before` gives `r` and leaves `after`:
/// a variable is bound to the value of `expr`; a function applied to a
/// variable is bound to that parameter and the cleaned body `expr`, which is
/// not evaluated; anything else is not a target. A failed assignment changes
/// nothing.
pub open spec fn assigned(before: Solver, after: Solver, left: Expr, expr: Expr, r: Result<Expr, EvalError>) -> bool {
    match left {
        Expr::Variable(name) => match r {
            Ok(w) => after.variable(lower_of(name@)) matches Some(v) && deep_eq(w, v) && evaluates(
                before,
                expr,
                None,
                MAX_DEPTH as nat,
                Ok(v),
            ) && (forall|n: Seq<char>| n != lower_of(name@) ==> #[trigger] after.variable(n) == before.variable(n))
                && (forall|n: Seq<char>| #[trigger] after.function(n) == before.function(n)),
            Err(x) => evaluates(before, expr, None, MAX_DEPTH as nat, Err(x)) && after == before,
        },
        Expr::Function(name, arg) => match *arg {
            Expr::Variable(p) => match r {
                Ok(res) => match (after.function(lower_of(name@)), res) {
                    (Some(def), Expr::Function(n2, a2)) => def.0@ == lower_of(p@) && cleans(lower_of(name@), expr, Ok(def.1))
                        && n2@ == lower_of(name@) && (match *a2 {
                        Expr::Variable(p2) => p2@ == lower_of(p@),
                        _ => false,
                    }) && (forall|n: Seq<char>| n != lower_of(name@) ==> #[trigger] after.function(n) == before.function(n))
                        && (forall|n: Seq<char>| #[trigger] after.variable(n) == before.variable(n)),
                    _ => false,
                },
                Err(x) => cleans(lower_of(name@), expr, Err(x)) && after == before,
            },
            _ => r == Err::<Expr, EvalError>(EvalError::InvalidAssignmentTarget) && after == before,
        },
        _ => r == Err::<Expr, EvalError>(EvalError::InvalidAssignmentTarget) && after == before,
    }
}

impl Solver {
    /// Assigns `expr` to a variable or defines a function; see `assigned`.
    pub fn assign(&mut self, left: Expr, expr: Expr) -> (r: Result<Expr, EvalError>)
        ensures
            assigned(*old(self), *final(self), left, expr, r),
    {
        match left {
            Expr::Variable(name) => {
                let v = self.eval(expr)?;
                let out = v.copy();
                let key = lowercase(name.as_str());
                self.set_var(key, v);
                Ok(out)
            },
            Expr::Function(name, arg) => match *arg {
                Expr::Variable(p) => {
                    let fname = lowercase(name.as_str());
                    let pname = lowercase(p.as_str());
                    let body = clean(&fname, &expr)?;
                    self.set_func(fname.clone(), pname.clone(), body);
                    Ok(Expr::Function(fname, Box::new(Expr::Variable(pname))))
                },
                _ => Err(EvalError::InvalidAssignmentTarget),
            },
            _ => Err(EvalError::InvalidAssignmentTarget),
        }
    }

    /// The name, parameter and body of the function that `expr` applies, if
    /// it is an application of a defined function.
    pub fn show_function(&self, expr: &Expr) -> (r: Option<(String, String, Expr)>)
        ensures
            match *expr {
                Expr::Function(name, _) => match self.function(lower_of(name@)) {
                    Some(def) => r matches Some(d) && d.0 == name && d.1 == def.0 && deep_eq(d.2, def.1),
                    None => r is None,
                },
                _ => r is None,
            },
    {
        match expr {
            Expr::Function(name, _) => {
                let key = lowercase(name.as_str());
                match self.find_func(&key) {
                    Some(i) => Some((name.clone(), self.funcs[i].param.clone(), self.funcs[i].body.copy())),
                    None => None,
                }
            },
            _ => None,
        }
    }
}


/// Cleans every cell of a matrix `e` whose rows are `rows`, collecting the
/// failures of all cells.
fn clean_rows(fun: &String, e: &Expr, rows: &Vec<Vec<Expr>>) -> (r: Result<Expr, EvalError>)
    requires
        *e == Expr::Matrix(*rows),
    ensures
        cleans(fun@, *e, r),
    decreases e, 0nat,
{
    proof {
        lemma_cells_decrease(*rows);
    }
    let n = rows.len();
    let mut res: Vec<Vec<Expr>> = Vec::new();
    let mut errors: Vec<CellError> = Vec::new();
    let mut y: usize = 0;
    while y < n
        invariant
            *e == Expr::Matrix(*rows),
            n == rows.len(),
            y <= n,
            res.len() == y,
            forall|k: int| 0 <= k < y ==> #[trigger] res[k].len() == rows[k].len(),
            forall|i: int, j: int|
                0 <= i < y && 0 <= j < rows[i].len() ==> listed(errors@, i, j) || cleans(
                    fun@, rows[i][j], Ok(#[trigger] res[i][j])),
            forall|k: int|
                0 <= k < errors.len() ==> #[trigger] errors[k].y < y && in_grid(*rows, errors[k].y as int, errors[k].x as int)
                    && cleans(fun@, rows[errors[k].y as int][errors[k].x as int], Err(errors[k].error)),
            row_major(errors@),
            forall|k: int| #![trigger errors[k]] 0 <= k < errors.len() ==> res[errors[k].y as int][errors[k].x as int] == Expr::Number(crate::number::Number::from_int(0)),
            forall|i: int, j: int| in_grid(*rows, i, j) ==> decreases_to!(Expr::Matrix(*rows) => #[trigger] rows[i][j]),
        decreases n - y,
    {
        let m = rows[y].len();
        let mut line: Vec<Expr> = Vec::new();
        let mut x: usize = 0;
        while x < m
            invariant
                *e == Expr::Matrix(*rows),
                n == rows.len(),
                y < n,
                x <= m,
                m == rows[y as int].len(),
                res.len() == y,
                forall|k: int| 0 <= k < y ==> #[trigger] res[k].len() == rows[k].len(),
                line.len() == x,
                forall|i: int, j: int|
                    0 <= i < y && 0 <= j < rows[i].len() ==> listed(errors@, i, j) || cleans(
                        fun@, rows[i][j], Ok(#[trigger] res[i][j])),
                forall|j: int|
                    0 <= j < x ==> listed(errors@, y as int, j) || cleans(fun@, rows[y as int][j], Ok(#[trigger] line[j])),
                forall|k: int|
                    0 <= k < errors.len() ==> (#[trigger] errors[k].y < y || (errors[k].y == y && errors[k].x < x))
                        && in_grid(*rows, errors[k].y as int, errors[k].x as int)
                        && cleans(fun@, rows[errors[k].y as int][errors[k].x as int], Err(errors[k].error)),
                row_major(errors@),
                forall|k: int|
                    #![trigger errors[k]]
                    0 <= k < errors.len() ==> if errors[k].y < y {
                        res[errors[k].y as int][errors[k].x as int] == Expr::Number(crate::number::Number::from_int(0))
                    } else {
                        line[errors[k].x as int] == Expr::Number(crate::number::Number::from_int(0))
                    },
                forall|i: int, j: int| in_grid(*rows, i, j) ==> decreases_to!(Expr::Matrix(*rows) => #[trigger] rows[i][j]),
            decreases m - x,
        {
            assert(in_grid(*rows, y as int, x as int));
            let ghost before = errors@;
            match clean(fun, &rows[y][x]) {
                Ok(v) => {
                    line.push(v);
                },
                Err(err) => {
                    let ce = CellError { x, y, error: err };
                    errors.push(ce);
                    proof {
                        crate::ops::lemma_listed_grows(before, ce);
                    }
                    line.push(Expr::Number(crate::number::Number::new(0)));
                },
            }
            x = x + 1;
        }
        let ghost old_res = res@;
        res.push(line);
        assert(forall|k: int| 0 <= k < y ==> res[k] == old_res[k]);
        y = y + 1;
    }
    assert(same_shape(res, *rows));
    if errors.len() == 0 {
        assert forall|i: int, j: int| in_grid(*rows, i, j) implies cleans(fun@, rows[i][j], Ok(#[trigger] res[i][j])) by {
            assert(!listed(errors@, i, j));
        }
        Ok(Expr::Matrix(res))
    } else {
        Err(EvalError::Cells { failures: errors, partial: res })
    }
}

} // verus!
