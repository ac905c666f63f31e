//! The evaluator: walks an abstract syntax tree and produces a numeric
//! result against a mutable variable environment.  It is generic over any
//! numeric type that supplies the capabilities listed in [`Num`].

use crate::lexer::{spec_tokenize, tokenize};
use crate::parser::{
    expr_view, parse, spec_parse, BinOperator, Expr, Function, SpecExpr,
};
use vstd::prelude::*;

verus! {

/// The numeric capability the evaluator is written against.  Each
/// executable operation comes with a specification function naming its
/// exact result, so that the evaluator's own contract can state, value by
/// value, what it computes.  The three laws at the end tie the integral
/// values of the type to the mathematical integers; the factorial loop
/// terminates because of them.
pub trait Num: Sized + Copy {
    /// The additive identity.
    spec fn zero_spec() -> Self;

    /// The multiplicative identity.
    spec fn one_spec() -> Self;

    /// What `from_literal` returns for a given literal text: `None` when
    /// the text is not a literal of this type.
    spec fn from_literal_spec(text: Seq<char>) -> Option<Self>;

    /// Whether the value carries no fractional part.
    spec fn is_integer_spec(self) -> bool;

    /// The mathematical integer a value equals; meaningful when
    /// `is_integer_spec` holds.
    spec fn integer_of(self) -> int;

    /// The strict order of the type.
    spec fn lt_spec(self, other: Self) -> bool;

    /// Numeric equality of the type.
    spec fn num_eq_spec(self, other: Self) -> bool;

    spec fn neg_spec(self) -> Self;

    spec fn add_spec(self, other: Self) -> Self;

    spec fn sub_spec(self, other: Self) -> Self;

    spec fn mul_spec(self, other: Self) -> Self;

    spec fn div_spec(self, other: Self) -> Self;

    spec fn pow_spec(self, other: Self) -> Self;

    spec fn sqrt_spec(self) -> Self;

    spec fn sin_spec(self) -> Self;

    spec fn cos_spec(self) -> Self;

    spec fn tan_spec(self) -> Self;

    spec fn log_spec(self) -> Self;

    spec fn abs_spec(self) -> Self;

    /// Zero, 0, none.
    fn zero() -> (r: Self)
        ensures
            r == Self::zero_spec(),
    ;

    /// One, 1, singular.
    fn one() -> (r: Self)
        ensures
            r == Self::one_spec(),
    ;

    /// Reads a value out of the text of a numeric literal.
    fn from_literal(text: &str) -> (r: Option<Self>)
        ensures
            r == Self::from_literal_spec(text@),
    ;

    /// True if this value has no decimal attached, i.e. 1 or 352, not
    /// 1.14 or 352.7.
    fn is_integer(&self) -> (r: bool)
        ensures
            r == self.is_integer_spec(),
    ;

    fn lt(&self, other: &Self) -> (r: bool)
        ensures
            r == self.lt_spec(*other),
    ;

    fn num_eq(&self, other: &Self) -> (r: bool)
        ensures
            r == self.num_eq_spec(*other),
    ;

    fn neg(&self) -> (r: Self)
        ensures
            r == self.neg_spec(),
    ;

    fn add(&self, other: &Self) -> (r: Self)
        ensures
            r == self.add_spec(*other),
    ;

    fn sub(&self, other: &Self) -> (r: Self)
        ensures
            r == self.sub_spec(*other),
    ;

    fn mul(&self, other: &Self) -> (r: Self)
        ensures
            r == self.mul_spec(*other),
    ;

    fn div(&self, other: &Self) -> (r: Self)
        ensures
            r == self.div_spec(*other),
    ;

    fn pow(&self, other: &Self) -> (r: Self)
        ensures
            r == self.pow_spec(*other),
    ;

    fn sqrt(&self) -> (r: Self)
        ensures
            r == self.sqrt_spec(),
    ;

    fn sin(&self) -> (r: Self)
        ensures
            r == self.sin_spec(),
    ;

    fn cos(&self) -> (r: Self)
        ensures
            r == self.cos_spec(),
    ;

    fn tan(&self) -> (r: Self)
        ensures
            r == self.tan_spec(),
    ;

    fn log(&self) -> (r: Self)
        ensures
            r == self.log_spec(),
    ;

    fn abs(&self) -> (r: Self)
        ensures
            r == self.abs_spec(),
    ;

    /// Subtracting one from an integral value at least one gives the
    /// integral value exactly one below it.
    proof fn law_sub_one(self)
        requires
            self.is_integer_spec(),
            self.integer_of() >= 1,
        ensures
            self.sub_spec(Self::one_spec()).is_integer_spec(),
            self.sub_spec(Self::one_spec()).integer_of() == self.integer_of() - 1,
    ;

    /// An integral value exceeds one exactly when its integer is at
    /// least two.
    proof fn law_one_lt(self)
        requires
            self.is_integer_spec(),
        ensures
            Self::one_spec().lt_spec(self) <==> self.integer_of() >= 2,
    ;

    /// An integral value that is neither negative, zero nor one has an
    /// integer of at least two.
    proof fn law_int_classify(self)
        requires
            self.is_integer_spec(),
            !self.lt_spec(Self::zero_spec()),
            !self.num_eq_spec(Self::zero_spec()),
            !self.num_eq_spec(Self::one_spec()),
        ensures
            self.integer_of() >= 2,
    ;
}

/// A semantic fault of evaluation.
#[derive(Debug, Clone, PartialEq)]
pub enum ComputeError {
    /// A factorial of a negative or non-integral value.
    InvalidFactorial,
    /// An assignment to a variable marked constant.
    VariableIsConstant(String),
    /// An identifier not found among the variables.
    UnrecognizedIdentifier(String),
}

/// The mathematical image of a semantic fault.
pub enum ComputeErrorV {
    InvalidFactorial,
    VariableIsConstant(Seq<char>),
    UnrecognizedIdentifier(Seq<char>),
}

impl View for ComputeError {
    type V = ComputeErrorV;

    open spec fn view(&self) -> ComputeErrorV {
        match self {
            ComputeError::InvalidFactorial => ComputeErrorV::InvalidFactorial,
            ComputeError::VariableIsConstant(s) => ComputeErrorV::VariableIsConstant(s@),
            ComputeError::UnrecognizedIdentifier(s) => ComputeErrorV::UnrecognizedIdentifier(s@),
        }
    }
}

/// The mathematical image of what `compute` returned.
pub open spec fn cres_view<T>(r: Result<T, ComputeError>) -> Result<T, ComputeErrorV> {
    match r {
        Ok(v) => Ok(v),
        Err(e) => Err(e@),
    }
}

/// The mapping an entry list stands for; an earlier entry shadows a
/// later one of the same name.
pub open spec fn env_view<T>(entries: Seq<(String, T, bool)>) -> Map<Seq<char>, (T, bool)>
    decreases entries.len(),
{
    if entries.len() == 0 {
        Map::empty()
    } else {
        env_view(entries.drop_first()).insert(entries[0].0@, (entries[0].1, entries[0].2))
    }
}

proof fn lemma_env_lookup_hit<T>(entries: Seq<(String, T, bool)>, k: Seq<char>, i: int)
    requires
        0 <= i < entries.len(),
        entries[i].0@ == k,
        forall|j: int| 0 <= j < i ==> entries[j].0@ != k,
    ensures
        env_view(entries).contains_key(k),
        env_view(entries)[k] == (entries[i].1, entries[i].2),
    decreases entries.len(),
{
    if i > 0 {
        assert(entries[0].0@ != k);
        lemma_env_lookup_hit(entries.drop_first(), k, i - 1);
    }
}

proof fn lemma_env_lookup_miss<T>(entries: Seq<(String, T, bool)>, k: Seq<char>)
    requires
        forall|j: int| 0 <= j < entries.len() ==> entries[j].0@ != k,
    ensures
        !env_view(entries).contains_key(k),
    decreases entries.len(),
{
    if entries.len() > 0 {
        lemma_env_lookup_miss(entries.drop_first(), k);
    }
}

proof fn lemma_env_update<T>(
    entries: Seq<(String, T, bool)>,
    k: Seq<char>,
    i: int,
    nt: (String, T, bool),
)
    requires
        0 <= i < entries.len(),
        entries[i].0@ == k,
        nt.0@ == k,
        forall|j: int| 0 <= j < i ==> entries[j].0@ != k,
    ensures
        env_view(entries.update(i, nt)) == env_view(entries).insert(k, (nt.1, nt.2)),
    decreases entries.len(),
{
    let upd = entries.update(i, nt);
    if i == 0 {
        assert(upd.drop_first() =~= entries.drop_first());
        assert(env_view(entries.drop_first()).insert(k, (entries[0].1, entries[0].2)).insert(
            k,
            (nt.1, nt.2),
        ) =~= env_view(entries.drop_first()).insert(k, (nt.1, nt.2)));
    } else {
        assert(upd.drop_first() =~= entries.drop_first().update(i - 1, nt));
        lemma_env_update(entries.drop_first(), k, i - 1, nt);
        assert(entries[0].0@ != k);
        assert(env_view(entries.drop_first()).insert(k, (nt.1, nt.2)).insert(
            entries[0].0@,
            (entries[0].1, entries[0].2),
        ) =~= env_view(entries.drop_first()).insert(
            entries[0].0@,
            (entries[0].1, entries[0].2),
        ).insert(k, (nt.1, nt.2)));
        assert(upd[0] == entries[0]);
    }
}

proof fn lemma_env_push<T>(entries: Seq<(String, T, bool)>, k: Seq<char>, nt: (String, T, bool))
    requires
        nt.0@ == k,
        forall|j: int| 0 <= j < entries.len() ==> entries[j].0@ != k,
    ensures
        env_view(entries.push(nt)) == env_view(entries).insert(k, (nt.1, nt.2)),
    decreases entries.len(),
{
    let pushed = entries.push(nt);
    if entries.len() == 0 {
        assert(pushed[0] == nt);
        assert(pushed.drop_first() =~= Seq::<(String, T, bool)>::empty());
        assert(env_view(pushed.drop_first()) == Map::<Seq<char>, (T, bool)>::empty());
        assert(env_view(entries) == Map::<Seq<char>, (T, bool)>::empty());
    } else {
        assert(pushed.drop_first() =~= entries.drop_first().push(nt));
        lemma_env_push(entries.drop_first(), k, nt);
        assert(entries[0].0@ != k);
        assert(env_view(entries.drop_first()).insert(k, (nt.1, nt.2)).insert(
            entries[0].0@,
            (entries[0].1, entries[0].2),
        ) =~= env_view(entries.drop_first()).insert(
            entries[0].0@,
            (entries[0].1, entries[0].2),
        ).insert(k, (nt.1, nt.2)));
        assert(pushed[0] == entries[0]);
    }
}

/// The arithmetic a binary node stands for.
pub open spec fn apply_binop<T: Num>(op: BinOperator, a: T, b: T) -> T {
    match op {
        BinOperator::Plus => a.add_spec(b),
        BinOperator::Minus => a.sub_spec(b),
        BinOperator::Star => a.mul_spec(b),
        BinOperator::Slash => a.div_spec(b),
    }
}

/// The capability a function node delegates to.
pub open spec fn apply_function<T: Num>(f: Function, v: T) -> T {
    match f {
        Function::Sqrt => v.sqrt_spec(),
        Function::Sin => v.sin_spec(),
        Function::Cos => v.cos_spec(),
        Function::Tan => v.tan_spec(),
        Function::Log => v.log_spec(),
        Function::Abs => v.abs_spec(),
    }
}

/// The product of `acc` with `fuel` successive factors counting down
/// from `factor`.
pub open spec fn fact_steps<T: Num>(acc: T, factor: T, fuel: nat) -> T
    decreases fuel,
{
    if fuel == 0 {
        acc
    } else {
        fact_steps(acc.mul_spec(factor), factor.sub_spec(T::one_spec()), (fuel - 1) as nat)
    }
}

/// What a factorial evaluates to: nothing when the operand is negative
/// or non-integral, one at zero and one, else the product of all the
/// integers from the operand down to two.
pub open spec fn spec_factorial_value<T: Num>(v: T) -> Option<T> {
    if v.lt_spec(T::zero_spec()) || !v.is_integer_spec() {
        None
    } else if v.num_eq_spec(T::zero_spec()) || v.num_eq_spec(T::one_spec()) {
        Some(T::one_spec())
    } else {
        Some(
            fact_steps(
                v,
                v.sub_spec(T::one_spec()),
                if v.integer_of() >= 2 {
                    (v.integer_of() - 2) as nat
                } else {
                    0
                },
            ),
        )
    }
}

/// What evaluating a tree returns and does to the environment: children
/// before parents, an assignment committed as soon as its right side has
/// a value, every fault leaving the environment exactly as the already
/// committed assignments made it.
pub open spec fn spec_compute_expr<T: Num>(
    e: SpecExpr<T>,
    env: Map<Seq<char>, (T, bool)>,
) -> (Result<T, ComputeErrorV>, Map<Seq<char>, (T, bool)>)
    decreases e,
{
    match e {
        SpecExpr::Constant(n) => (Ok(n), env),
        SpecExpr::Identifier(name) => {
            if env.contains_key(name) {
                (Ok(env[name].0), env)
            } else {
                (Err(ComputeErrorV::UnrecognizedIdentifier(name)), env)
            }
        },
        SpecExpr::Neg(a) => {
            let (r, env1) = spec_compute_expr(*a, env);
            match r {
                Ok(v) => (Ok(v.neg_spec()), env1),
                Err(er) => (Err(er), env1),
            }
        },
        SpecExpr::BinOp(op, l, r) => {
            let (rl, env1) = spec_compute_expr(*l, env);
            match rl {
                Ok(lv) => {
                    let (rr, env2) = spec_compute_expr(*r, env1);
                    match rr {
                        Ok(rv) => (Ok(apply_binop(op, lv, rv)), env2),
                        Err(er) => (Err(er), env2),
                    }
                },
                Err(er) => (Err(er), env1),
            }
        },
        SpecExpr::Pow(l, r) => {
            let (rl, env1) = spec_compute_expr(*l, env);
            match rl {
                Ok(lv) => {
                    let (rr, env2) = spec_compute_expr(*r, env1);
                    match rr {
                        Ok(rv) => (Ok(lv.pow_spec(rv)), env2),
                        Err(er) => (Err(er), env2),
                    }
                },
                Err(er) => (Err(er), env1),
            }
        },
        SpecExpr::Factorial(a) => {
            let (r, env1) = spec_compute_expr(*a, env);
            match r {
                Ok(v) => match spec_factorial_value(v) {
                    Some(fv) => (Ok(fv), env1),
                    None => (Err(ComputeErrorV::InvalidFactorial), env1),
                },
                Err(er) => (Err(er), env1),
            }
        },
        SpecExpr::Function(f, a) => {
            let (r, env1) = spec_compute_expr(*a, env);
            match r {
                Ok(v) => (Ok(apply_function(f, v)), env1),
                Err(er) => (Err(er), env1),
            }
        },
        SpecExpr::Assignment(name, a) => {
            let (r, env1) = spec_compute_expr(*a, env);
            match r {
                Ok(v) => {
                    if env1.contains_key(name) && env1[name].1 {
                        (Err(ComputeErrorV::VariableIsConstant(name)), env1)
                    } else {
                        (Ok(v), env1.insert(name, (v, false)))
                    }
                },
                Err(er) => (Err(er), env1),
            }
        },
    }
}

/// What a root-level evaluation returns and does to the environment: on
/// success the result is also written to "ans", marked constant.
pub open spec fn spec_compute<T: Num>(
    e: SpecExpr<T>,
    env: Map<Seq<char>, (T, bool)>,
) -> (Result<T, ComputeErrorV>, Map<Seq<char>, (T, bool)>) {
    let (r, env1) = spec_compute_expr(e, env);
    match r {
        Ok(n) => (Ok(n), env1.insert("ans"@, (n, true))),
        Err(er) => (Err(er), env1),
    }
}

/// What the whole pipeline returns for a text: tokens, tree, value, with
/// whichever stage failed surfaced as its own error family.
pub open spec fn spec_eval<T: Num>(input: Seq<char>, env: Map<Seq<char>, (T, bool)>) -> (Result<
    T,
    crate::EvalErrorV<T>,
>, Map<Seq<char>, (T, bool)>) {
    match spec_tokenize::<T>(input) {
        Err(le) => (Err(crate::EvalErrorV::LexerError(le)), env),
        Ok(tvs) => match spec_parse(tvs) {
            Err(pe) => (Err(crate::EvalErrorV::ParserError(pe)), env),
            Ok(se) => {
                let (r, env2) = spec_compute(se, env);
                match r {
                    Ok(n) => (Ok(n), env2),
                    Err(ce) => (Err(crate::EvalErrorV::ComputeError(ce)), env2),
                }
            },
        },
    }
}

/// Evaluation never changes a binding marked constant: the only write
/// to a constant binding is `compute`'s own "ans" write, at the root.
pub proof fn lemma_compute_preserves_constants<T: Num>(
    e: SpecExpr<T>,
    env: Map<Seq<char>, (T, bool)>,
    name: Seq<char>,
)
    requires
        env.contains_key(name),
        env[name].1,
    ensures
        ({
            let (r, env1) = spec_compute_expr(e, env);
            env1.contains_key(name) && env1[name] == env[name]
        }),
    decreases e,
{
    match e {
        SpecExpr::Constant(_) => {},
        SpecExpr::Identifier(_) => {},
        SpecExpr::Neg(a) => {
            lemma_compute_preserves_constants(*a, env, name);
        },
        SpecExpr::BinOp(_, l, r) => {
            lemma_compute_preserves_constants(*l, env, name);
            let (rl, env1) = spec_compute_expr(*l, env);
            if rl is Ok {
                lemma_compute_preserves_constants(*r, env1, name);
            }
        },
        SpecExpr::Pow(l, r) => {
            lemma_compute_preserves_constants(*l, env, name);
            let (rl, env1) = spec_compute_expr(*l, env);
            if rl is Ok {
                lemma_compute_preserves_constants(*r, env1, name);
            }
        },
        SpecExpr::Factorial(a) => {
            lemma_compute_preserves_constants(*a, env, name);
        },
        SpecExpr::Function(_, a) => {
            lemma_compute_preserves_constants(*a, env, name);
        },
        SpecExpr::Assignment(_, a) => {
            lemma_compute_preserves_constants(*a, env, name);
        },
    }
}

/// Constant protection: an assignment whose target is bound constant
/// never succeeds and leaves that binding exactly as it was; when its
/// right side evaluates, the fault is the constant-variable one, naming
/// the target.
pub proof fn lemma_assignment_to_constant<T: Num>(
    name: Seq<char>,
    rhs: SpecExpr<T>,
    env: Map<Seq<char>, (T, bool)>,
)
    requires
        env.contains_key(name),
        env[name].1,
    ensures
        ({
            let (r, env1) = spec_compute_expr(SpecExpr::Assignment(name, Box::new(rhs)), env);
            &&& env1.contains_key(name) && env1[name] == env[name]
            &&& !(r is Ok)
            &&& (spec_compute_expr(rhs, env).0 is Ok ==> r == Err::<T, ComputeErrorV>(
                ComputeErrorV::VariableIsConstant(name),
            ))
        }),
{
    lemma_compute_preserves_constants(rhs, env, name);
}

/// After a successful root evaluation the "ans" binding holds the
/// result, marked constant.
pub proof fn lemma_ans_updated<T: Num>(e: SpecExpr<T>, env: Map<Seq<char>, (T, bool)>, n: T)
    requires
        spec_compute(e, env).0 == Ok::<T, ComputeErrorV>(n),
    ensures
        spec_compute(e, env).1.contains_key("ans"@),
        spec_compute(e, env).1["ans"@] == (n, true),
{
}

/// An identifier with no binding evaluates to the unrecognized-identifier
/// fault naming it, and the environment is untouched.
pub proof fn lemma_unrecognized_identifier<T: Num>(name: Seq<char>, env: Map<Seq<char>, (T, bool)>)
    requires
        !env.contains_key(name),
    ensures
        spec_compute_expr(SpecExpr::Identifier(name), env) == (
            Err::<T, ComputeErrorV>(ComputeErrorV::UnrecognizedIdentifier(name)),
            env,
        ),
{
}

/// The factorial domain: a factorial whose operand has a value fails
/// with the invalid-factorial fault exactly when that value is negative
/// or non-integral, and an operand of zero or one gives one.
pub proof fn lemma_factorial_domain<T: Num>(v: T)
    ensures
        (spec_factorial_value(v) is None) <==> (v.lt_spec(T::zero_spec())
            || !v.is_integer_spec()),
        (!v.lt_spec(T::zero_spec()) && v.is_integer_spec() && (v.num_eq_spec(T::zero_spec())
            || v.num_eq_spec(T::one_spec()))) ==> spec_factorial_value(v) == Some(T::one_spec()),
{
}

/// A Computer calculates expressions and has variables.  The entries of
/// `variables` map a name to its value and its constant flag; an earlier
/// entry shadows a later one of the same name, and the verified methods
/// never make two entries of one name.
#[derive(Debug, Clone, PartialEq)]
pub struct Computer<T> {
    pub variables: Vec<(String, T, bool)>,
}

impl<T> View for Computer<T> {
    type V = Map<Seq<char>, (T, bool)>;

    open spec fn view(&self) -> Map<Seq<char>, (T, bool)> {
        env_view(self.variables@)
    }
}

/// The position of the entry a lookup finds: the first of the name.
fn env_find<T: Copy>(vars: &Vec<(String, T, bool)>, name: &String) -> (r: Option<usize>)
    ensures
        match r {
            Some(i) => i < vars@.len() && vars@[i as int].0@ == name@ && (forall|j: int|
                0 <= j < i ==> vars@[j].0@ != name@),
            None => forall|j: int| 0 <= j < vars@.len() ==> vars@[j].0@ != name@,
        },
{
    let mut i: usize = 0;
    while i < vars.len()
        invariant
            i <= vars@.len(),
            forall|j: int| 0 <= j < i ==> vars@[j].0@ != name@,
        decreases vars@.len() - i,
    {
        if vars[i].0 == *name {
            return Some(i);
        }
        i = i + 1;
    }
    None
}

/// Binds a name, shadowing nothing: the first entry of the name is
/// replaced, or a new entry is added.
fn env_put<T: Copy>(vars: &mut Vec<(String, T, bool)>, name: &String, value: T, constant: bool)
    ensures
        env_view(final(vars)@) == env_view(old(vars)@).insert(name@, (value, constant)),
{
    match env_find(vars, name) {
        Some(i) => {
            let ghost entries = vars@;
            vars.set(i, (name.clone(), value, constant));
            proof {
                lemma_env_update(entries, name@, i as int, vars@[i as int]);
            }
        },
        None => {
            let ghost entries = vars@;
            vars.push((name.clone(), value, constant));
            proof {
                lemma_env_push(entries, name@, vars@[vars@.len() - 1]);
            }
        },
    }
}

impl<T: Num> Computer<T> {
    /// A fresh Computer whose environment holds exactly the two seeded
    /// constants "pi" and "e".
    pub fn new(pi_val: T, e_val: T) -> (r: Computer<T>)
        ensures
            r@ == Map::<Seq<char>, (T, bool)>::empty().insert("e"@, (e_val, true)).insert(
                "pi"@,
                (pi_val, true),
            ),
    {
        let mut vars: Vec<(String, T, bool)> = Vec::new();
        vars.push((String::from_str("pi"), pi_val, true));
        vars.push((String::from_str("e"), e_val, true));
        let r = Computer { variables: vars };
        proof {
            reveal_with_fuel(env_view, 3);
            let s = r.variables@;
            assert(s.len() == 2);
            assert(s[0].0@ == "pi"@ && s[0].1 == pi_val && s[0].2);
            assert(s[1].0@ == "e"@ && s[1].1 == e_val && s[1].2);
            assert(s.drop_first()[0] == s[1]);
            assert(s.drop_first().drop_first() =~= Seq::<(String, T, bool)>::empty());
            assert(env_view(s.drop_first().drop_first()) == Map::<Seq<char>, (T, bool)>::empty());
            assert(r@ == Map::<Seq<char>, (T, bool)>::empty().insert("e"@, (e_val, true)).insert(
                "pi"@,
                (pi_val, true),
            ));
        }
        r
    }

    /// The value and constant flag a name is bound to, if any.
    pub fn get_variable(&self, name: &str) -> (r: Option<(T, bool)>)
        ensures
            r == if self@.contains_key(name@) {
                Some(self@[name@])
            } else {
                None::<(T, bool)>
            },
    {
        let key = String::from_str(name);
        match env_find(&self.variables, &key) {
            Some(i) => {
                proof {
                    lemma_env_lookup_hit(self.variables@, name@, i as int);
                }
                Some((self.variables[i].1, self.variables[i].2))
            },
            None => {
                proof {
                    lemma_env_lookup_miss(self.variables@, name@);
                }
                None
            },
        }
    }

    fn compute_expr(&mut self, expr: &Expr<T>) -> (r: Result<T, ComputeError>)
        ensures
            ({
                let (sr, senv) = spec_compute_expr(expr_view(*expr), old(self)@);
                cres_view(r) == sr && final(self)@ == senv
            }),
        decreases *expr,
    {
        match expr {
            Expr::Constant(num) => Ok(*num),
            Expr::Identifier(id) => match env_find(&self.variables, id) {
                Some(i) => {
                    proof {
                        lemma_env_lookup_hit(self.variables@, id@, i as int);
                    }
                    Ok(self.variables[i].1)
                },
                None => {
                    proof {
                        lemma_env_lookup_miss(self.variables@, id@);
                    }
                    Err(ComputeError::UnrecognizedIdentifier(id.clone()))
                },
            },
            Expr::Neg(a) => match self.compute_expr(&**a) {
                Ok(v) => Ok(v.neg()),
                Err(e) => Err(e),
            },
            Expr::BinOp(op, l, r) => {
                let lv = match self.compute_expr(&**l) {
                    Ok(v) => v,
                    Err(e) => {
                        return Err(e);
                    },
                };
                let rv = match self.compute_expr(&**r) {
                    Ok(v) => v,
                    Err(e) => {
                        return Err(e);
                    },
                };
                match op {
                    BinOperator::Plus => Ok(lv.add(&rv)),
                    BinOperator::Minus => Ok(lv.sub(&rv)),
                    BinOperator::Star => Ok(lv.mul(&rv)),
                    BinOperator::Slash => Ok(lv.div(&rv)),
                }
            },
            Expr::Pow(l, r) => {
                let lv = match self.compute_expr(&**l) {
                    Ok(v) => v,
                    Err(e) => {
                        return Err(e);
                    },
                };
                let rv = match self.compute_expr(&**r) {
                    Ok(v) => v,
                    Err(e) => {
                        return Err(e);
                    },
                };
                Ok(lv.pow(&rv))
            },
            Expr::Function(f, a) => {
                let v = match self.compute_expr(&**a) {
                    Ok(v) => v,
                    Err(e) => {
                        return Err(e);
                    },
                };
                match f {
                    Function::Sqrt => Ok(v.sqrt()),
                    Function::Sin => Ok(v.sin()),
                    Function::Cos => Ok(v.cos()),
                    Function::Tan => Ok(v.tan()),
                    Function::Log => Ok(v.log()),
                    Function::Abs => Ok(v.abs()),
                }
            },
            Expr::Factorial(a) => {
                let mut value = match self.compute_expr(&**a) {
                    Ok(v) => v,
                    Err(e) => {
                        return Err(e);
                    },
                };
                let zero = T::zero();
                let one = T::one();
                if value.lt(&zero) || !value.is_integer() {
                    Err(ComputeError::InvalidFactorial)
                } else if value.num_eq(&zero) || value.num_eq(&one) {
                    Ok(one)
                } else {
                    proof {
                        value.law_int_classify();
                        value.law_sub_one();
                    }
                    let ghost v0 = value;
                    let mut factor = value.sub(&one);
                    let ghost f0 = factor;
                    while one.lt(&factor)
                        invariant
                            one == T::one_spec(),
                            factor.is_integer_spec(),
                            factor.integer_of() >= 1,
                            fact_steps(v0, f0, (f0.integer_of() - 1) as nat) == fact_steps(
                                value,
                                factor,
                                (factor.integer_of() - 1) as nat,
                            ),
                        decreases factor.integer_of(),
                    {
                        proof {
                            factor.law_one_lt();
                            factor.law_sub_one();
                        }
                        value = value.mul(&factor);
                        factor = factor.sub(&one);
                    }
                    proof {
                        factor.law_one_lt();
                    }
                    Ok(value)
                }
            },
            Expr::Assignment(id, a) => {
                let value = match self.compute_expr(&**a) {
                    Ok(v) => v,
                    Err(e) => {
                        return Err(e);
                    },
                };
                match env_find(&self.variables, id) {
                    Some(i) => {
                        proof {
                            lemma_env_lookup_hit(self.variables@, id@, i as int);
                        }
                        if self.variables[i].2 {
                            return Err(ComputeError::VariableIsConstant(id.clone()));
                        }
                    },
                    None => {
                        proof {
                            lemma_env_lookup_miss(self.variables@, id@);
                        }
                    },
                }
                env_put(&mut self.variables, id, value, false);
                Ok(value)
            },
        }
    }

    /// Solves an already parsed expression tree against the variables,
    /// and on success writes the result to "ans", marked constant.
    pub fn compute(&mut self, expr: &Expr<T>) -> (r: Result<T, ComputeError>)
        ensures
            ({
                let (sr, senv) = spec_compute(expr_view(*expr), old(self)@);
                cres_view(r) == sr && final(self)@ == senv
            }),
    {
        let val = self.compute_expr(expr);
        match &val {
            Ok(n) => {
                let key = String::from_str("ans");
                env_put(&mut self.variables, &key, *n, true);
            },
            _ => {},
        }
        val
    }

    /// Lexically analyzes, parses, and computes the given expression in
    /// string form: the whole pipeline in a single helper.
    pub fn eval(&mut self, expr: &str) -> (r: Result<T, crate::EvalError<T>>)
        ensures
            ({
                let (sr, senv) = spec_eval::<T>(expr@, old(self)@);
                crate::eres_view(r) == sr && final(self)@ == senv
            }),
    {
        match tokenize::<T>(expr) {
            Ok(tokens) => match parse(&tokens) {
                Ok(ast) => match self.compute(&ast) {
                    Ok(num) => Ok(num),
                    Err(compute_err) => Err(crate::EvalError::ComputeError(compute_err)),
                },
                Err(parser_err) => Err(crate::EvalError::ParserError(parser_err)),
            },
            Err(lexer_err) => Err(crate::EvalError::LexerError(lexer_err)),
        }
    }
}

} // verus!
