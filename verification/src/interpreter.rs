//! The evaluator: executes an expression tree against an environment,
//! dispatching to native functions, resolving string interpolation, and
//! treating blocks as first-class closures that callees invoke in a fresh
//! scope. A runtime fault aborts the statement's evaluation and is
//! returned as a structured error; the evaluator never panics and never
//! ends the process.
//!
//! The meaning of evaluation is the spec function [`ev_expr`] and its
//! companions, which mirror the evaluator state for state. Evaluation
//! depth is bounded by a fuel counter, generous enough for any reasonable
//! program; exhausting it is an error rather than a crash.

use vstd::prelude::*;
use crate::chars::copy_chars;
use crate::environment::{Environment, EnvV, env_define, env_lookup};
use crate::expression::{Expression, ExprV, expr_view, value_view, exprs_view, values_view,
    duplicate_expression, duplicate_expressions, lemma_exprs_view_index, lemma_values_view_index};
use crate::number::{Number, num_wf, plus_fits, plus_scale, aligned, MAX_SCALE};
use crate::parser::{Parser, p_items};
use crate::tokenizer::{Tokenizer, ScanMode, ScanV, scan, sat_inc64};
use crate::value::{NativeFunction, Value, ValueV, duplicate_value, push_text, text_of};

verus! {

/// How deep evaluation may recurse before it reports exhaustion.
pub const EVAL_FUEL: u64 = 1000000;

/// A runtime fault. Source errors abort one statement; none of them ends
/// the process.
#[derive(Debug)]
pub enum EvalError {
    /// An identifier resolves to nothing along the scope chain.
    UNRESOLVED(Vec<char>),
    /// Property access on something that is not a namespace identifier.
    NOT_A_NAMESPACE,
    /// A call with the wrong number of arguments, or a malformed binding.
    ARITY,
    /// A native function applied to values of the wrong shape.
    TYPE_MISMATCH,
    /// Decimal arithmetic left the representable range.
    OVERFLOW,
    /// A subscript index is not a whole number inside the list's bounds.
    OUT_OF_RANGE,
    /// Evaluation nested deeper than the fuel bound allows.
    TOO_DEEP,
    /// An interpolation span did not scan or parse.
    MALFORMED_INTERPOLATION,
    /// The script asked the host to stop.
    EXIT,
}

/// The mathematical image of an `EvalError`.
pub enum EvErr {
    UNRESOLVED(Seq<char>),
    NOT_A_NAMESPACE,
    ARITY,
    TYPE_MISMATCH,
    OVERFLOW,
    OUT_OF_RANGE,
    TOO_DEEP,
    MALFORMED_INTERPOLATION,
    EXIT,
}

impl View for EvalError {
    type V = EvErr;

    open spec fn view(&self) -> EvErr {
        match *self {
            EvalError::UNRESOLVED(ref n) => EvErr::UNRESOLVED(n@),
            EvalError::NOT_A_NAMESPACE => EvErr::NOT_A_NAMESPACE,
            EvalError::ARITY => EvErr::ARITY,
            EvalError::TYPE_MISMATCH => EvErr::TYPE_MISMATCH,
            EvalError::OVERFLOW => EvErr::OVERFLOW,
            EvalError::OUT_OF_RANGE => EvErr::OUT_OF_RANGE,
            EvalError::TOO_DEEP => EvErr::TOO_DEEP,
            EvalError::MALFORMED_INTERPOLATION => EvErr::MALFORMED_INTERPOLATION,
            EvalError::EXIT => EvErr::EXIT,
        }
    }
}

/// The view of an evaluation result.
pub open spec fn res_view(r: Result<Value, EvalError>) -> Result<ValueV, EvErr> {
    match r {
        Result::Ok(v) => Result::Ok(v@),
        Result::Err(e) => Result::Err(e@),
    }
}

/// The view of an argument-list result.
pub open spec fn args_res_view(r: Result<Vec<Value>, EvalError>) -> Result<Seq<ValueV>, EvErr> {
    match r {
        Result::Ok(vs) => Result::Ok(values_view(vs@)),
        Result::Err(e) => Result::Err(e@),
    }
}

/// One evaluation outcome: the environment after it, and a value or a
/// fault.
#[verifier::ext_equal]
pub struct EvalOut {
    pub env: EnvV,
    pub res: Result<ValueV, EvErr>,
}

#[verifier::ext_equal]
pub struct ArgsOut {
    pub env: EnvV,
    pub res: Result<Seq<ValueV>, EvErr>,
}

#[verifier::ext_equal]
pub struct TextOut {
    pub env: EnvV,
    pub res: Result<Seq<char>, EvErr>,
}

/// The qualified name a property access resolves, `base#name`.
pub open spec fn hash_join(bn: Seq<char>, nm: Seq<char>) -> Seq<char> {
    bn + seq!['#'] + nm
}

/// The name bound for each entry while `map` runs its block.
pub open spec fn element_name() -> Seq<char> {
    seq!['e', 'l', 'e', 'm', 'e', 'n', 't']
}

/// A callee of the shape `@name` binds rather than calls.
pub open spec fn is_define_name(nm: Seq<char>) -> bool {
    nm.len() > 0 && nm[0] == '@'
}

/// An environment with one more scope entered.
pub open spec fn env_push(e: EnvV) -> EnvV {
    EnvV { scopes: e.scopes.push(e.next_scope), next_scope: sat_inc64(e.next_scope), ..e }
}

/// An environment with the innermost scope left.
pub open spec fn env_pop(e: EnvV) -> EnvV {
    EnvV { scopes: e.scopes.drop_last(), ..e }
}

/// How much of a walked sequence is left.
pub open spec fn srem(len: int, k: int) -> int {
    if k <= len {
        len - k
    } else {
        0
    }
}

/// Evaluating one expression.
pub open spec fn ev_expr(env: EnvV, e: ExprV, fuel: nat) -> EvalOut
    decreases fuel, 0int,
{
    if fuel == 0 {
        EvalOut { env, res: Result::Err(EvErr::TOO_DEEP) }
    } else {
        match e {
            ExprV::NUMBER(n) => EvalOut { env, res: Result::Ok(ValueV::NUMBER(n)) },
            ExprV::STRING(raw) => {
                let t = ev_template(env, raw, 0, Seq::empty(), (fuel - 1) as nat);
                EvalOut {
                    env: t.env,
                    res: match t.res {
                        Result::Ok(s) => Result::Ok(ValueV::STRING(s)),
                        Result::Err(er) => Result::Err(er),
                    },
                }
            },
            ExprV::IDENTIFIER(nm) => EvalOut {
                env,
                res: match env_lookup(env, nm) {
                    Option::Some(v) => Result::Ok(v),
                    Option::None => Result::Err(EvErr::UNRESOLVED(nm)),
                },
            },
            ExprV::LIST(es) => ev_call(env, es, (fuel - 1) as nat),
            ExprV::BLOCK(es) => EvalOut { env, res: Result::Ok(ValueV::BLOCK(es)) },
            ExprV::PROPERTY(b, nm) => EvalOut {
                env,
                res: match *b {
                    ExprV::IDENTIFIER(bn) => match env_lookup(env, hash_join(bn, nm)) {
                        Option::Some(v) => Result::Ok(v),
                        Option::None => Result::Err(EvErr::UNRESOLVED(hash_join(bn, nm))),
                    },
                    _ => Result::Err(EvErr::NOT_A_NAMESPACE),
                },
            },
            ExprV::VALUE(v) => EvalOut { env, res: Result::Ok(v) },
            ExprV::KEY_VALUE(nm, b) => {
                let r = ev_expr(env, *b, (fuel - 1) as nat);
                match r.res {
                    Result::Ok(v) => EvalOut {
                        env: r.env,
                        res: Result::Ok(ValueV::KEY_VALUE(nm, Box::new(v))),
                    },
                    Result::Err(er) => r,
                }
            },
        }
    }
}

/// Evaluating a list form. A call whose callee is a property access on a
/// non-namespace base is first rewritten so that the base becomes the
/// first argument: `(x.f a)` behaves as `(f x a)`.
pub open spec fn ev_call(env: EnvV, es: Seq<ExprV>, fuel: nat) -> EvalOut
    decreases fuel, 1int,
{
    if fuel == 0 {
        EvalOut { env, res: Result::Err(EvErr::TOO_DEEP) }
    } else if es.len() > 0 && (match es[0] {
        ExprV::PROPERTY(b, _) => !(*b is IDENTIFIER),
        _ => false,
    }) {
        let b = es[0]->PROPERTY_0;
        let nm = es[0]->PROPERTY_1;
        ev_call2(env, seq![ExprV::IDENTIFIER(nm), *b] + es.skip(1), (fuel - 1) as nat)
    } else {
        ev_call2(env, es, (fuel - 1) as nat)
    }
}

/// The core of a call, after any property rewrite: an empty list is the
/// empty list value; an `@name` callee binds its single argument in the
/// current scope; a native-function callee is applied after its arity is
/// checked; any other callee makes the form a list literal.
pub open spec fn ev_call2(env: EnvV, es: Seq<ExprV>, fuel: nat) -> EvalOut
    decreases fuel, 0int,
{
    if fuel == 0 {
        EvalOut { env, res: Result::Err(EvErr::TOO_DEEP) }
    } else if es.len() == 0 {
        EvalOut { env, res: Result::Ok(ValueV::LIST(Seq::empty())) }
    } else if es[0] is IDENTIFIER && is_define_name(es[0]->IDENTIFIER_0) {
        let nm = es[0]->IDENTIFIER_0;
        if es.len() != 2 {
            EvalOut { env, res: Result::Err(EvErr::ARITY) }
        } else {
            let r = ev_expr(env, es[1], (fuel - 1) as nat);
            match r.res {
                Result::Ok(v) => EvalOut {
                    env: env_define(r.env, r.env.scopes.last(), nm.skip(1), v),
                    res: Result::Ok(v),
                },
                Result::Err(er) => r,
            }
        }
    } else {
        let c = ev_expr(env, es[0], (fuel - 1) as nat);
        match c.res {
            Result::Err(er) => c,
            Result::Ok(callee) => {
                let a = ev_args(c.env, es, 1, (fuel - 1) as nat);
                match a.res {
                    Result::Err(er) => EvalOut { env: a.env, res: Result::Err(er) },
                    Result::Ok(args) => match callee {
                        ValueV::NATIVE_FUNCTION(f, ar) => {
                            if ar >= 0 && args.len() != ar {
                                EvalOut { env: a.env, res: Result::Err(EvErr::ARITY) }
                            } else {
                                nv_apply(a.env, f, args, (fuel - 1) as nat)
                            }
                        },
                        _ => EvalOut {
                            env: a.env,
                            res: Result::Ok(ValueV::LIST(seq![callee] + args)),
                        },
                    },
                }
            },
        }
    }
}

/// Evaluating the arguments of a call, left to right. A block argument is
/// not evaluated: it is handed to the callee as a closure value.
pub open spec fn ev_args(env: EnvV, es: Seq<ExprV>, k: int, fuel: nat) -> ArgsOut
    decreases fuel, srem(es.len() as int, k),
{
    if fuel == 0 {
        ArgsOut { env, res: Result::Err(EvErr::TOO_DEEP) }
    } else if k < 0 || k >= es.len() {
        ArgsOut { env, res: Result::Ok(Seq::empty()) }
    } else {
        let first = if es[k] is BLOCK {
            EvalOut { env, res: Result::Ok(ValueV::BLOCK(es[k]->BLOCK_0)) }
        } else {
            ev_expr(env, es[k], (fuel - 1) as nat)
        };
        match first.res {
            Result::Err(er) => ArgsOut { env: first.env, res: Result::Err(er) },
            Result::Ok(v) => {
                let rest = ev_args(first.env, es, k + 1, fuel);
                match rest.res {
                    Result::Err(er) => rest,
                    Result::Ok(vs) => ArgsOut { env: rest.env, res: Result::Ok(seq![v] + vs) },
                }
            },
        }
    }
}

/// Evaluating the expressions of a block body in sequence; the value is
/// that of the last one, null for an empty body.
pub open spec fn ev_seq(env: EnvV, es: Seq<ExprV>, k: int, fuel: nat) -> EvalOut
    decreases fuel, srem(es.len() as int, k),
{
    if fuel == 0 {
        EvalOut { env, res: Result::Err(EvErr::TOO_DEEP) }
    } else if k < 0 || k >= es.len() {
        EvalOut { env, res: Result::Ok(ValueV::NULL) }
    } else {
        let r = ev_expr(env, es[k], (fuel - 1) as nat);
        match r.res {
            Result::Err(er) => r,
            Result::Ok(v) => {
                if k == es.len() - 1 {
                    r
                } else {
                    ev_seq(r.env, es, k + 1, fuel)
                }
            },
        }
    }
}

/// `map`: runs the block once per list entry, `element` bound to the
/// entry in a fresh scope, and collects the results in order.
pub open spec fn ev_map(
    env: EnvV,
    items: Seq<ValueV>,
    k: int,
    body: Seq<ExprV>,
    fuel: nat,
) -> ArgsOut
    decreases fuel, srem(items.len() as int, k),
{
    if fuel == 0 {
        ArgsOut { env, res: Result::Err(EvErr::TOO_DEEP) }
    } else if k < 0 || k >= items.len() {
        ArgsOut { env, res: Result::Ok(Seq::empty()) }
    } else {
        let env1 = env_push(env);
        let env2 = env_define(env1, env.next_scope, element_name(), items[k]);
        let r = ev_seq(env2, body, 0, (fuel - 1) as nat);
        let env3 = env_pop(r.env);
        match r.res {
            Result::Err(er) => ArgsOut { env: env3, res: Result::Err(er) },
            Result::Ok(v) => {
                let rest = ev_map(env3, items, k + 1, body, fuel);
                match rest.res {
                    Result::Err(er) => rest,
                    Result::Ok(vs) => ArgsOut { env: rest.env, res: Result::Ok(seq![v] + vs) },
                }
            },
        }
    }
}

/// `run`: walks its arguments, invoking each block value in a fresh scope;
/// the result is the last value processed.
pub open spec fn ev_run(env: EnvV, args: Seq<ValueV>, k: int, last: ValueV, fuel: nat) -> EvalOut
    decreases fuel, srem(args.len() as int, k),
{
    if fuel == 0 {
        EvalOut { env, res: Result::Err(EvErr::TOO_DEEP) }
    } else if k < 0 || k >= args.len() {
        EvalOut { env, res: Result::Ok(last) }
    } else {
        match args[k] {
            ValueV::BLOCK(bs) => {
                let env1 = env_push(env);
                let r = ev_seq(env1, bs, 0, (fuel - 1) as nat);
                let env2 = env_pop(r.env);
                match r.res {
                    Result::Err(er) => EvalOut { env: env2, res: Result::Err(er) },
                    Result::Ok(v) => ev_run(env2, args, k + 1, v, fuel),
                }
            },
            v => ev_run(env, args, k + 1, v, fuel),
        }
    }
}

/// Whether every argument is a number.
pub open spec fn all_numbers(args: Seq<ValueV>) -> bool {
    forall|i: int| 0 <= i < args.len() ==> (#[trigger] args[i]) is NUMBER
}

/// Exact decimal summation; any value or scale outside the representable
/// range is an overflow fault.
pub open spec fn sum_nums(args: Seq<ValueV>, k: int, acc: Number) -> Result<Number, EvErr>
    decreases srem(args.len() as int, k),
{
    if k < 0 || k >= args.len() {
        Result::Ok(acc)
    } else {
        let n = args[k]->NUMBER_0;
        if !num_wf(acc) || !num_wf(n) || !plus_fits(acc, n) {
            Result::Err(EvErr::OVERFLOW)
        } else {
            let s = plus_scale(acc, n);
            sum_nums(args, k + 1, Number { mantissa: (aligned(acc, s) + aligned(n, s)) as i64, scale: s })
        }
    }
}

/// The concatenation of the text representations of the arguments.
pub open spec fn concat_texts(args: Seq<ValueV>, k: int, out: Seq<char>) -> Seq<char>
    decreases srem(args.len() as int, k),
{
    if k < 0 || k >= args.len() {
        out
    } else {
        concat_texts(args, k + 1, out + text_of(args[k]))
    }
}

/// Applying one native function to evaluated arguments.
pub open spec fn nv_apply(env: EnvV, f: NativeFunction, args: Seq<ValueV>, fuel: nat) -> EvalOut
    decreases fuel, 0int,
{
    if fuel == 0 {
        EvalOut { env, res: Result::Err(EvErr::TOO_DEEP) }
    } else {
        match f {
            NativeFunction::GET => EvalOut {
                env,
                res: if args.len() == 0 {
                    Result::Ok(ValueV::NULL)
                } else if args.len() == 2 && args[0] is LIST && args[1] is NUMBER {
                    let items = args[0]->LIST_0;
                    let n = args[1]->NUMBER_0;
                    if n.scale == 0 && 0 <= n.mantissa < items.len() {
                        Result::Ok(items[n.mantissa as int])
                    } else {
                        Result::Err(EvErr::OUT_OF_RANGE)
                    }
                } else {
                    Result::Ok(args.last())
                },
            },
            NativeFunction::RUN => ev_run(env, args, 0, ValueV::NULL, (fuel - 1) as nat),
            NativeFunction::MAP => {
                if args.len() != 2 {
                    EvalOut { env, res: Result::Err(EvErr::ARITY) }
                } else {
                    match (args[0], args[1]) {
                        (ValueV::LIST(items), ValueV::BLOCK(bs)) => {
                            let r = ev_map(env, items, 0, bs, (fuel - 1) as nat);
                            EvalOut {
                                env: r.env,
                                res: match r.res {
                                    Result::Ok(vs) => Result::Ok(ValueV::LIST(vs)),
                                    Result::Err(er) => Result::Err(er),
                                },
                            }
                        },
                        _ => EvalOut { env, res: Result::Err(EvErr::TYPE_MISMATCH) },
                    }
                }
            },
            NativeFunction::ADD => EvalOut {
                env,
                res: if all_numbers(args) {
                    match sum_nums(args, 0, Number { mantissa: 0, scale: 0 }) {
                        Result::Ok(n) => Result::Ok(ValueV::NUMBER(n)),
                        Result::Err(er) => Result::Err(er),
                    }
                } else {
                    Result::Ok(ValueV::STRING(concat_texts(args, 0, Seq::empty())))
                },
            },
            NativeFunction::EXIT => EvalOut { env, res: Result::Err(EvErr::EXIT) },
        }
    }
}

/// Resolving a string template from position `k`: plain characters are
/// copied, escapes become their control characters, and a `\(...)` span is
/// scanned with the tokenizer's interpolation entry point, parsed,
/// evaluated against the current environment, and its text spliced in.
/// Module directives are not available inside interpolation spans.
pub open spec fn ev_template(
    env: EnvV,
    raw: Seq<char>,
    k: int,
    out: Seq<char>,
    fuel: nat,
) -> TextOut
    decreases fuel, srem(raw.len() as int, k),
{
    if fuel == 0 {
        TextOut { env, res: Result::Err(EvErr::TOO_DEEP) }
    } else if k < 0 || k >= raw.len() {
        TextOut { env, res: Result::Ok(out) }
    } else if raw[k] == '\\' && k + 1 < raw.len() {
        let c2 = raw[k + 1];
        if c2 == 'n' {
            ev_template(env, raw, k + 2, out.push('\n'), fuel)
        } else if c2 == 't' {
            ev_template(env, raw, k + 2, out.push('\t'), fuel)
        } else if c2 == '\\' {
            ev_template(env, raw, k + 2, out.push('\\'), fuel)
        } else if c2 == '(' {
            let sub = scan(
                raw,
                Seq::empty(),
                ScanMode::Interpolation,
                ScanV {
                    i: k + 2,
                    line: 1,
                    offset: 0,
                    tokens: Seq::empty(),
                    diags: Seq::empty(),
                    had_error: false,
                    module_name: Seq::empty(),
                    modules: Seq::empty(),
                    parens: 0,
                    squares: 0,
                    curlies: 0,
                },
                0,
            );
            if sub.had_error {
                TextOut { env, res: Result::Err(EvErr::MALFORMED_INTERPOLATION) }
            } else {
                let pr = p_items(sub.tokens, 0, Seq::empty(), true, false, Seq::empty());
                if pr.err {
                    TextOut { env, res: Result::Err(EvErr::MALFORMED_INTERPOLATION) }
                } else {
                    let r = ev_call(env, pr.es, (fuel - 1) as nat);
                    match r.res {
                        Result::Err(er) => TextOut { env: r.env, res: Result::Err(er) },
                        Result::Ok(v) => {
                            let k2a = if sub.i < raw.len() {
                                sub.i + 1
                            } else {
                                raw.len() as int
                            };
                            let k2 = if k2a > k {
                                k2a
                            } else {
                                k + 1
                            };
                            ev_template(r.env, raw, k2, out + text_of(v), fuel)
                        },
                    }
                }
            }
        } else {
            ev_template(env, raw, k + 2, out.push(c2), fuel)
        }
    } else {
        ev_template(env, raw, k + 1, out.push(raw[k]), fuel)
    }
}

/// Running the loaded program: a block at the root is a statement
/// sequence evaluated in the current scope, anything else one expression.
pub open spec fn run_code(env: EnvV, fuel: nat) -> EvalOut {
    match env.code {
        ExprV::BLOCK(es) => ev_seq(env, es, 0, fuel),
        e => ev_expr(env, e, fuel),
    }
}

/// The qualified name of a property access, `base#name`.
fn join_hash(bn: &Vec<char>, nm: &Vec<char>) -> (r: Vec<char>)
    ensures
        r@ == hash_join(bn@, nm@),
{
    let mut r = copy_chars(bn);
    r.push('#');
    let mut i: usize = 0;
    while i < nm.len()
        invariant
            i <= nm@.len(),
            r@ == bn@ + seq!['#'] + nm@.take(i as int),
        decreases nm@.len() - i,
    {
        r.push(nm[i]);
        i = i + 1;
        proof {
            assert(r@ =~= bn@ + seq!['#'] + nm@.take(i as int));
        }
    }
    proof {
        assert(r@ =~= hash_join(bn@, nm@));
    }
    r
}

/// Evaluates one expression against the environment.
pub fn eval_expression(env: &mut Environment, e: &Expression, fuel: u64) -> (r: Result<
    Value,
    EvalError,
>)
    requires
        old(env).wf(),
    ensures
        final(env).wf(),
        final(env)@.scopes == old(env)@.scopes,
        ({
            let o = ev_expr(old(env)@, e@, fuel as nat);
            final(env)@ == o.env && res_view(r) == o.res
        }),
    decreases fuel, 0int,
{
    proof {
        reveal_with_fuel(crate::expression::expr_view, 3);
        reveal_with_fuel(crate::expression::value_view, 3);
    }
    if fuel == 0 {
        return Result::Err(EvalError::TOO_DEEP);
    }
    match e {
        Expression::NUMBER(n) => Result::Ok(Value::NUMBER(*n)),
        Expression::STRING(raw) => {
            let mut out: Vec<char> = Vec::new();
            proof {
                assert(out@ =~= Seq::<char>::empty());
            }
            match eval_template(env, raw, 0, &mut out, fuel - 1) {
                Result::Ok(_) => Result::Ok(Value::STRING(out)),
                Result::Err(er) => Result::Err(er),
            }
        },
        Expression::IDENTIFIER(nm) => match env.lookup(nm) {
            Option::Some(v) => Result::Ok(v),
            Option::None => Result::Err(EvalError::UNRESOLVED(copy_chars(nm))),
        },
        Expression::LIST(es) => eval_call(env, es, fuel - 1),
        Expression::BLOCK(es) => Result::Ok(Value::BLOCK(duplicate_expressions(es))),
        Expression::PROPERTY(b, nm) => match &**b {
            Expression::IDENTIFIER(bn) => {
                let joined = join_hash(bn, nm);
                match env.lookup(&joined) {
                    Option::Some(v) => Result::Ok(v),
                    Option::None => Result::Err(EvalError::UNRESOLVED(joined)),
                }
            },
            _ => Result::Err(EvalError::NOT_A_NAMESPACE),
        },
        Expression::VALUE(v) => Result::Ok(duplicate_value(v)),
        Expression::KEY_VALUE(nm, b) => match eval_expression(env, b, fuel - 1) {
            Result::Ok(v) => Result::Ok(Value::KEY_VALUE(copy_chars(nm), Box::new(v))),
            Result::Err(er) => Result::Err(er),
        },
    }
}

/// Evaluates a list form, rewriting a property-access callee on a
/// non-namespace base into a call with the base as first argument.
pub fn eval_call(env: &mut Environment, es: &Vec<Expression>, fuel: u64) -> (r: Result<
    Value,
    EvalError,
>)
    requires
        old(env).wf(),
    ensures
        final(env).wf(),
        final(env)@.scopes == old(env)@.scopes,
        ({
            let o = ev_call(old(env)@, exprs_view(es@), fuel as nat);
            final(env)@ == o.env && res_view(r) == o.res
        }),
    decreases fuel, 1int,
{
    proof {
        lemma_exprs_view_index(es@);
        reveal_with_fuel(crate::expression::expr_view, 3);
        reveal_with_fuel(crate::expression::value_view, 3);
    }
    if fuel == 0 {
        return Result::Err(EvalError::TOO_DEEP);
    }
    let mut rewrite = false;
    if es.len() > 0 {
        match &es[0] {
            Expression::PROPERTY(b, _) => {
                rewrite = !matches!(&**b, Expression::IDENTIFIER(_));
            },
            _ => {},
        }
    }
    if rewrite {
        match &es[0] {
            Expression::PROPERTY(b, nm) => {
                let mut es2: Vec<Expression> = Vec::new();
                es2.push(Expression::IDENTIFIER(copy_chars(nm)));
                es2.push(duplicate_expression(b));
                let mut k: usize = 1;
                while k < es.len()
                    invariant
                        1 <= k <= es@.len(),
                        es2@.len() == k + 1,
                        expr_view(es2@[0]) == ExprV::IDENTIFIER(exprs_view(es@)[0]->PROPERTY_1),
                        expr_view(es2@[1]) == *(exprs_view(es@)[0]->PROPERTY_0),
                        exprs_view(es@).len() == es@.len(),
                        exprs_view(es@)[0] is PROPERTY,
                        forall|j: int|
                            0 <= j < es@.len() ==> #[trigger] exprs_view(es@)[j]
                                == expr_view(es@[j]),
                        forall|j: int|
                            2 <= j < k + 1 ==> #[trigger] expr_view(es2@[j]) == exprs_view(
                                es@,
                            )[j - 1],
                    decreases es@.len() - k,
                {
                    let d = duplicate_expression(&es[k]);
                    es2.push(d);
                    k = k + 1;
                }
                proof {
                    lemma_exprs_view_index(es2@);
                    assert(exprs_view(es2@) =~= seq![
                        ExprV::IDENTIFIER(exprs_view(es@)[0]->PROPERTY_1),
                        *(exprs_view(es@)[0]->PROPERTY_0),
                    ] + exprs_view(es@).skip(1));
                }
                eval_call2(env, &es2, fuel - 1)
            },
            _ => {
                proof {
                    assert(false);
                }
                Result::Err(EvalError::TYPE_MISMATCH)
            },
        }
    } else {
        eval_call2(env, es, fuel - 1)
    }
}

/// The core of a call, after any property rewrite.
fn eval_call2(env: &mut Environment, es: &Vec<Expression>, fuel: u64) -> (r: Result<
    Value,
    EvalError,
>)
    requires
        old(env).wf(),
    ensures
        final(env).wf(),
        final(env)@.scopes == old(env)@.scopes,
        ({
            let o = ev_call2(old(env)@, exprs_view(es@), fuel as nat);
            final(env)@ == o.env && res_view(r) == o.res
        }),
    decreases fuel, 0int,
{
    proof {
        lemma_exprs_view_index(es@);
        reveal_with_fuel(crate::expression::expr_view, 3);
        reveal_with_fuel(crate::expression::value_view, 3);
    }
    if fuel == 0 {
        return Result::Err(EvalError::TOO_DEEP);
    }
    if es.len() == 0 {
        let vs: Vec<Value> = Vec::new();
        proof {
            assert(values_view(vs@) =~= Seq::<ValueV>::empty());
        }
        return Result::Ok(Value::LIST(vs));
    }
    let mut is_def = false;
    match &es[0] {
        Expression::IDENTIFIER(nm) => {
            if nm.len() > 0 && nm[0] == '@' {
                is_def = true;
            }
        },
        _ => {},
    }
    if is_def {
        if es.len() != 2 {
            return Result::Err(EvalError::ARITY);
        }
        match eval_expression(env, &es[1], fuel - 1) {
            Result::Ok(v) => {
                match &es[0] {
                    Expression::IDENTIFIER(nm) => {
                        let mut short = copy_chars(nm);
                        let _ = short.remove(0);
                        proof {
                            assert(short@ =~= nm@.skip(1));
                        }
                        let scope = env.current_scope();
                        let dup = duplicate_value(&v);
                        env.define(scope, short, dup);
                        Result::Ok(v)
                    },
                    _ => {
                        proof {
                            assert(false);
                        }
                        Result::Err(EvalError::ARITY)
                    },
                }
            },
            Result::Err(er) => Result::Err(er),
        }
    } else {
        match eval_expression(env, &es[0], fuel - 1) {
            Result::Err(er) => Result::Err(er),
            Result::Ok(callee) => {
                match eval_args(env, es, 1, fuel - 1) {
                    Result::Err(er) => Result::Err(er),
                    Result::Ok(args) => {
                        match callee {
                            Value::NATIVE_FUNCTION(f, ar) => {
                                let mismatch = ar >= 0 && !(ar >= 0 && args.len() as u64 == (
                                ar as u64));
                                if mismatch {
                                    proof {
                                        lemma_values_view_index(args@);
                                    }
                                    Result::Err(EvalError::ARITY)
                                } else {
                                    proof {
                                        lemma_values_view_index(args@);
                                    }
                                    apply_native(env, f, args, fuel - 1)
                                }
                            },
                            other => {
                                let ghost argsv = values_view(args@);
                                let ghost pre = args@;
                                let mut vs = args;
                                vs.insert(0, other);
                                proof {
                                    lemma_values_view_index(vs@);
                                    lemma_values_view_index(pre);
                                    assert(values_view(vs@) =~= seq![value_view(vs@[0])]
                                        + argsv);
                                }
                                Result::Ok(Value::LIST(vs))
                            },
                        }
                    },
                }
            },
        }
    }
}

/// Evaluates call arguments from position `k`, blocks staying closures.
fn eval_args(env: &mut Environment, es: &Vec<Expression>, k: usize, fuel: u64) -> (r: Result<
    Vec<Value>,
    EvalError,
>)
    requires
        old(env).wf(),
    ensures
        final(env).wf(),
        final(env)@.scopes == old(env)@.scopes,
        ({
            let o = ev_args(old(env)@, exprs_view(es@), k as int, fuel as nat);
            final(env)@ == o.env && args_res_view(r) == o.res
        }),
    decreases fuel, es@.len() - k,
{
    proof {
        lemma_exprs_view_index(es@);
        reveal_with_fuel(crate::expression::expr_view, 3);
        reveal_with_fuel(crate::expression::value_view, 3);
    }
    if fuel == 0 {
        return Result::Err(EvalError::TOO_DEEP);
    }
    if k >= es.len() {
        let vs: Vec<Value> = Vec::new();
        proof {
            assert(values_view(vs@) =~= Seq::<ValueV>::empty());
        }
        return Result::Ok(vs);
    }
    let mut is_block = false;
    match &es[k] {
        Expression::BLOCK(_) => {
            is_block = true;
        },
        _ => {},
    }
    let first: Result<Value, EvalError> = if is_block {
        match &es[k] {
            Expression::BLOCK(bs) => Result::Ok(Value::BLOCK(duplicate_expressions(bs))),
            _ => {
                proof {
                    assert(false);
                }
                Result::Err(EvalError::TYPE_MISMATCH)
            },
        }
    } else {
        eval_expression(env, &es[k], fuel - 1)
    };
    match first {
        Result::Err(er) => Result::Err(er),
        Result::Ok(v) => {
            match eval_args(env, es, k + 1, fuel) {
                Result::Err(er) => Result::Err(er),
                Result::Ok(vs) => {
                    let ghost restv = values_view(vs@);
                    let ghost pre = vs@;
                    let mut vs2 = vs;
                    vs2.insert(0, v);
                    proof {
                        lemma_values_view_index(vs2@);
                        lemma_values_view_index(pre);
                        assert(values_view(vs2@) =~= seq![value_view(vs2@[0])] + restv);
                    }
                    Result::Ok(vs2)
                },
            }
        },
    }
}

/// Evaluates a statement sequence from position `k`; the value is the
/// last one's.
pub fn eval_sequence(env: &mut Environment, es: &Vec<Expression>, k: usize, fuel: u64) -> (r:
    Result<Value, EvalError>)
    requires
        old(env).wf(),
    ensures
        final(env).wf(),
        final(env)@.scopes == old(env)@.scopes,
        ({
            let o = ev_seq(old(env)@, exprs_view(es@), k as int, fuel as nat);
            final(env)@ == o.env && res_view(r) == o.res
        }),
    decreases fuel, es@.len() - k,
{
    proof {
        lemma_exprs_view_index(es@);
        reveal_with_fuel(crate::expression::expr_view, 3);
        reveal_with_fuel(crate::expression::value_view, 3);
    }
    if fuel == 0 {
        return Result::Err(EvalError::TOO_DEEP);
    }
    if k >= es.len() {
        return Result::Ok(Value::NULL);
    }
    match eval_expression(env, &es[k], fuel - 1) {
        Result::Err(er) => Result::Err(er),
        Result::Ok(v) => {
            if k == es.len() - 1 {
                Result::Ok(v)
            } else {
                eval_sequence(env, es, k + 1, fuel)
            }
        },
    }
}

/// Runs a block once per list entry with `element` bound, collecting the
/// results.
fn eval_map(
    env: &mut Environment,
    items: &Vec<Value>,
    k: usize,
    body: &Vec<Expression>,
    fuel: u64,
) -> (r: Result<Vec<Value>, EvalError>)
    requires
        old(env).wf(),
    ensures
        final(env).wf(),
        final(env)@.scopes == old(env)@.scopes,
        ({
            let o = ev_map(old(env)@, values_view(items@), k as int, exprs_view(body@), fuel as nat);
            final(env)@ == o.env && args_res_view(r) == o.res
        }),
    decreases fuel, items@.len() - k,
{
    proof {
        lemma_values_view_index(items@);
        reveal_with_fuel(crate::expression::expr_view, 3);
        reveal_with_fuel(crate::expression::value_view, 3);
    }
    if fuel == 0 {
        return Result::Err(EvalError::TOO_DEEP);
    }
    if k >= items.len() {
        let vs: Vec<Value> = Vec::new();
        proof {
            assert(values_view(vs@) =~= Seq::<ValueV>::empty());
        }
        return Result::Ok(vs);
    }
    let scope = env.push_scope();
    let elem = duplicate_value(&items[k]);
    let ename = crate::chars::string_to_chars("element");
    proof {
        reveal_strlit("element");
        assert(ename@ =~= element_name());
    }
    env.define(scope, ename, elem);
    let r = eval_sequence(env, body, 0, fuel - 1);
    env.pop_scope();
    match r {
        Result::Err(er) => Result::Err(er),
        Result::Ok(v) => {
            match eval_map(env, items, k + 1, body, fuel) {
                Result::Err(er) => Result::Err(er),
                Result::Ok(vs) => {
                    let ghost restv = values_view(vs@);
                    let ghost pre = vs@;
                    let mut vs2 = vs;
                    vs2.insert(0, v);
                    proof {
                        lemma_values_view_index(vs2@);
                        lemma_values_view_index(pre);
                        assert(values_view(vs2@) =~= seq![value_view(vs2@[0])] + restv);
                    }
                    Result::Ok(vs2)
                },
            }
        },
    }
}

/// Walks `run`'s arguments, invoking block values in fresh scopes.
fn eval_run(env: &mut Environment, args: &Vec<Value>, k: usize, last: Value, fuel: u64) -> (r:
    Result<Value, EvalError>)
    requires
        old(env).wf(),
    ensures
        final(env).wf(),
        final(env)@.scopes == old(env)@.scopes,
        ({
            let o = ev_run(old(env)@, values_view(args@), k as int, last@, fuel as nat);
            final(env)@ == o.env && res_view(r) == o.res
        }),
    decreases fuel, args@.len() - k,
{
    proof {
        lemma_values_view_index(args@);
        reveal_with_fuel(crate::expression::expr_view, 3);
        reveal_with_fuel(crate::expression::value_view, 3);
    }
    if fuel == 0 {
        return Result::Err(EvalError::TOO_DEEP);
    }
    if k >= args.len() {
        return Result::Ok(last);
    }
    let mut is_block = false;
    match &args[k] {
        Value::BLOCK(_) => {
            is_block = true;
        },
        _ => {},
    }
    if is_block {
        match &args[k] {
            Value::BLOCK(bs) => {
                let _ = env.push_scope();
                let r = eval_sequence(env, bs, 0, fuel - 1);
                env.pop_scope();
                match r {
                    Result::Err(er) => Result::Err(er),
                    Result::Ok(v) => eval_run(env, args, k + 1, v, fuel),
                }
            },
            _ => {
                proof {
                    assert(false);
                }
                Result::Err(EvalError::TYPE_MISMATCH)
            },
        }
    } else {
        let v = duplicate_value(&args[k]);
        eval_run(env, args, k + 1, v, fuel)
    }
}

/// `+` over evaluated arguments: exact decimal summation when every
/// argument is a number, text concatenation otherwise.
#[verifier::rlimit(100)]
#[verifier::spinoff_prover]
fn add_values(args: &Vec<Value>) -> (r: Result<Value, EvalError>)
    ensures
        res_view(r) == (if all_numbers(values_view(args@)) {
            match sum_nums(values_view(args@), 0, Number { mantissa: 0, scale: 0 }) {
                Result::Ok(n) => Result::<ValueV, EvErr>::Ok(ValueV::NUMBER(n)),
                Result::Err(er) => Result::<ValueV, EvErr>::Err(er),
            }
        } else {
            Result::<ValueV, EvErr>::Ok(
                ValueV::STRING(concat_texts(values_view(args@), 0, Seq::empty())),
            )
        }),
{
    let ghost argsv = values_view(args@);
    proof {
        lemma_values_view_index(args@);
    }
    let mut all = true;
    let mut k: usize = 0;
    while k < args.len()
        invariant
            k <= args@.len(),
            argsv == values_view(args@),
            argsv.len() == args@.len(),
            forall|j: int| 0 <= j < args@.len() ==> #[trigger] argsv[j] == value_view(args@[j]),
            all == (forall|j: int| 0 <= j < k ==> (#[trigger] argsv[j]) is NUMBER),
        decreases args@.len() - k,
    {
        let mut isn = false;
        match &args[k] {
            Value::NUMBER(_) => {
                isn = true;
            },
            _ => {},
        }
        if !isn {
            all = false;
            proof {
                assert(!((argsv[k as int]) is NUMBER));
            }
        }
        k = k + 1;
    }
    proof {
        assert(all == all_numbers(argsv));
    }
    if all {
        let mut acc = Number { mantissa: 0, scale: 0 };
        let mut t: usize = 0;
        while t < args.len()
            invariant
                t <= args@.len(),
                argsv == values_view(args@),
                argsv.len() == args@.len(),
                forall|j: int| 0 <= j < args@.len() ==> #[trigger] argsv[j] == value_view(
                    args@[j],
                ),
                all_numbers(argsv),
                sum_nums(argsv, 0, Number { mantissa: 0, scale: 0 }) == sum_nums(
                    argsv,
                    t as int,
                    acc,
                ),
            decreases args@.len() - t,
        {
            let ghost accold = acc;
            proof {
                assert((argsv[t as int]) is NUMBER);
            }
            match &args[t] {
                Value::NUMBER(n) => {
                    if acc.scale > MAX_SCALE || n.scale > MAX_SCALE {
                        proof {
                            assert(sum_nums(argsv, t as int, accold) == Result::<
                                Number,
                                EvErr,
                            >::Err(EvErr::OVERFLOW));
                        }
                        return Result::Err(EvalError::OVERFLOW);
                    }
                    match acc.add(*n) {
                        Result::Ok(sum) => {
                            acc = sum;
                            proof {
                                assert(sum_nums(argsv, t as int, accold) == sum_nums(
                                    argsv,
                                    t as int + 1,
                                    acc,
                                ));
                            }
                        },
                        Result::Err(_) => {
                            proof {
                                assert(sum_nums(argsv, t as int, accold) == Result::<
                                    Number,
                                    EvErr,
                                >::Err(EvErr::OVERFLOW));
                            }
                            return Result::Err(EvalError::OVERFLOW);
                        },
                    }
                },
                _ => {
                    proof {
                        assert(false);
                    }
                },
            }
            t = t + 1;
        }
        Result::Ok(Value::NUMBER(acc))
    } else {
        let mut out: Vec<char> = Vec::new();
        proof {
            assert(out@ =~= Seq::<char>::empty());
        }
        let mut t: usize = 0;
        while t < args.len()
            invariant
                t <= args@.len(),
                argsv == values_view(args@),
                argsv.len() == args@.len(),
                forall|j: int| 0 <= j < args@.len() ==> #[trigger] argsv[j] == value_view(
                    args@[j],
                ),
                concat_texts(argsv, 0, Seq::empty()) == concat_texts(argsv, t as int, out@),
            decreases args@.len() - t,
        {
            push_text(&args[t], &mut out);
            t = t + 1;
        }
        Result::Ok(Value::STRING(out))
    }
}

/// Applies one native function to its evaluated arguments.
#[verifier::rlimit(100)]
#[verifier::spinoff_prover]
fn apply_native(env: &mut Environment, f: NativeFunction, args: Vec<Value>, fuel: u64) -> (r:
    Result<Value, EvalError>)
    requires
        old(env).wf(),
    ensures
        final(env).wf(),
        final(env)@.scopes == old(env)@.scopes,
        ({
            let o = nv_apply(old(env)@, f, values_view(args@), fuel as nat);
            final(env)@ == o.env && res_view(r) == o.res
        }),
    decreases fuel, 0int,
{
    proof {
        lemma_values_view_index(args@);
        reveal_with_fuel(crate::expression::expr_view, 3);
        reveal_with_fuel(crate::expression::value_view, 3);
    }
    if fuel == 0 {
        return Result::Err(EvalError::TOO_DEEP);
    }
    match f {
        NativeFunction::GET => {
            if args.len() == 0 {
                return Result::Ok(Value::NULL);
            }
            if args.len() == 2 {
                let mut indexed = false;
                match (&args[0], &args[1]) {
                    (Value::LIST(_), Value::NUMBER(_)) => {
                        indexed = true;
                    },
                    _ => {},
                }
                if indexed {
                    match (&args[0], &args[1]) {
                        (Value::LIST(items), Value::NUMBER(n)) => {
                            proof {
                                lemma_values_view_index(items@);
                            }
                            if n.scale == 0 && n.mantissa >= 0 && (n.mantissa as u64) < (
                            items.len() as u64) {
                                let idx = n.mantissa as usize;
                                return Result::Ok(duplicate_value(&items[idx]));
                            }
                            return Result::Err(EvalError::OUT_OF_RANGE);
                        },
                        _ => {
                            proof {
                                assert(false);
                            }
                            return Result::Err(EvalError::TYPE_MISMATCH);
                        },
                    }
                }
            }
            let mut a = args;
            match a.pop() {
                Option::Some(v) => Result::Ok(v),
                Option::None => {
                    proof {
                        assert(false);
                    }
                    Result::Err(EvalError::TYPE_MISMATCH)
                },
            }
        },
        NativeFunction::RUN => eval_run(env, &args, 0, Value::NULL, fuel - 1),
        NativeFunction::MAP => {
            if args.len() != 2 {
                return Result::Err(EvalError::ARITY);
            }
            let mut a = args;
            let second = match a.pop() {
                Option::Some(v) => v,
                Option::None => {
                    proof {
                        assert(false);
                    }
                    Value::NULL
                },
            };
            let first = match a.pop() {
                Option::Some(v) => v,
                Option::None => {
                    proof {
                        assert(false);
                    }
                    Value::NULL
                },
            };
            match (first, second) {
                (Value::LIST(items), Value::BLOCK(bs)) => {
                    match eval_map(env, &items, 0, &bs, fuel - 1) {
                        Result::Ok(vs) => Result::Ok(Value::LIST(vs)),
                        Result::Err(er) => Result::Err(er),
                    }
                },
                _ => Result::Err(EvalError::TYPE_MISMATCH),
            }
        },
        NativeFunction::ADD => add_values(&args),
        NativeFunction::EXIT => Result::Err(EvalError::EXIT),
    }
}

/// Resolves a string template: escapes and `\(...)` interpolation spans.
fn eval_template(
    env: &mut Environment,
    raw: &Vec<char>,
    k: usize,
    out: &mut Vec<char>,
    fuel: u64,
) -> (r: Result<(), EvalError>)
    requires
        old(env).wf(),
    ensures
        final(env).wf(),
        final(env)@.scopes == old(env)@.scopes,
        ({
            let o = ev_template(old(env)@, raw@, k as int, old(out)@, fuel as nat);
            final(env)@ == o.env && (match o.res {
                Result::Ok(s) => r is Ok && final(out)@ == s,
                Result::Err(er) => r is Err && r->Err_0@ == er,
            })
        }),
    decreases fuel, raw@.len() - k,
{
    if fuel == 0 {
        return Result::Err(EvalError::TOO_DEEP);
    }
    if k >= raw.len() {
        return Result::Ok(());
    }
    let c = raw[k];
    if c == '\\' && k + 1 < raw.len() {
        let c2 = raw[k + 1];
        if c2 == 'n' {
            out.push('\n');
            eval_template(env, raw, k + 2, out, fuel)
        } else if c2 == 't' {
            out.push('\t');
            eval_template(env, raw, k + 2, out, fuel)
        } else if c2 == '\\' {
            out.push('\\');
            eval_template(env, raw, k + 2, out, fuel)
        } else if c2 == '(' {
            let code2 = copy_chars(raw);
            let mut tk = Tokenizer {
                code: code2,
                current_index: k + 2,
                current_line: 1,
                current_offset: 0,
                tokens: Vec::new(),
                had_error: false,
                modules: Vec::new(),
                module_name: Vec::new(),
                diagnostics: Vec::new(),
                table: Vec::new(),
                include_depth: 0,
                parens: 0,
                squares: 0,
                curlies: 0,
            };
            proof {
                assert(crate::tokenizer::scan_state(tk@) =~= (ScanV {
                    i: k + 2,
                    line: 1,
                    offset: 0,
                    tokens: Seq::empty(),
                    diags: Seq::empty(),
                    had_error: false,
                    module_name: Seq::empty(),
                    modules: Seq::empty(),
                    parens: 0,
                    squares: 0,
                    curlies: 0,
                }));
                assert(tk@.table =~= Seq::<(Seq<char>, Seq<char>)>::empty());
            }
            let stop = tk.tokenize_interpolation();
            if tk.had_error {
                return Result::Err(EvalError::MALFORMED_INTERPOLATION);
            }
            let mut pr = Parser::new(tk.tokens);
            let es = pr.parse_list();
            if pr.had_error {
                return Result::Err(EvalError::MALFORMED_INTERPOLATION);
            }
            match eval_call(env, &es, fuel - 1) {
                Result::Err(er) => Result::Err(er),
                Result::Ok(v) => {
                    push_text(&v, out);
                    let k2a = if stop < raw.len() {
                        stop + 1
                    } else {
                        raw.len()
                    };
                    let k2 = if k2a > k {
                        k2a
                    } else {
                        k + 1
                    };
                    eval_template(env, raw, k2, out, fuel)
                },
            }
        } else {
            out.push(c2);
            eval_template(env, raw, k + 2, out, fuel)
        }
    } else {
        out.push(c);
        eval_template(env, raw, k + 1, out, fuel)
    }
}

/// Evaluates the loaded program of an environment: a block at the root is
/// a statement sequence run in the current scope, anything else a single
/// expression.
pub fn interpret(env: &mut Environment) -> (r: Result<Value, EvalError>)
    requires
        old(env).wf(),
    ensures
        final(env).wf(),
        final(env)@.scopes == old(env)@.scopes,
        ({
            let o = run_code(old(env)@, EVAL_FUEL as nat);
            final(env)@ == o.env && res_view(r) == o.res
        }),
{
    let code = duplicate_expression(&env.code);
    match code {
        Expression::BLOCK(es) => eval_sequence(env, &es, 0, EVAL_FUEL),
        other => eval_expression(env, &other, EVAL_FUEL),
    }
}

/// The numbers a sequence of number literals stands for.
pub open spec fn literal_values(es: Seq<ExprV>) -> Seq<ValueV> {
    es.map_values(|e: ExprV| ValueV::NUMBER(e->NUMBER_0))
}

/// Arguments that are all number literals evaluate to exactly those
/// numbers, in source order, and leave the environment unchanged.
pub proof fn lemma_number_literals_evaluate(env: EnvV, es: Seq<ExprV>, k: int, fuel: nat)
    requires
        fuel >= 2,
        forall|i: int| 0 <= i < es.len() ==> (#[trigger] es[i]) is NUMBER,
        0 <= k <= es.len(),
    ensures
        ev_args(env, es, k, fuel) == (ArgsOut {
            env,
            res: Result::Ok(literal_values(es.skip(k))),
        }),
    decreases es.len() - k,
{
    if k >= es.len() {
        assert(es.skip(k) =~= Seq::<ExprV>::empty());
        assert(literal_values(es.skip(k)) =~= Seq::<ValueV>::empty());
        assert(ev_args(env, es, k, fuel) =~= (ArgsOut {
            env,
            res: Result::Ok(literal_values(es.skip(k))),
        }));
    } else {
        assert(es[k] is NUMBER);
        assert(ev_expr(env, es[k], (fuel - 1) as nat) == (EvalOut {
            env,
            res: Result::Ok(ValueV::NUMBER(es[k]->NUMBER_0)),
        }));
        lemma_number_literals_evaluate(env, es, k + 1, fuel);
        assert(literal_values(es.skip(k)) =~= seq![ValueV::NUMBER(es[k]->NUMBER_0)]
            + literal_values(es.skip(k + 1)));
        assert(ev_args(env, es, k, fuel) =~= (ArgsOut {
            env,
            res: Result::Ok(literal_values(es.skip(k))),
        }));
    }
}

/// The text a list literal of numbers renders to: each number's text
/// followed by one space, in source order.
pub open spec fn number_list_text(es: Seq<ExprV>) -> Seq<char>
    decreases es.len(),
{
    if es.len() == 0 {
        Seq::empty()
    } else {
        number_list_text(es.drop_last()) + crate::number::num_chars(es.last()->NUMBER_0)
            + seq![' ']
    }
}

/// The list value a literal of numbers round-trips to renders as each
/// number's text followed by one space, in source order.
pub proof fn lemma_number_list_text(es: Seq<ExprV>)
    requires
        forall|i: int| 0 <= i < es.len() ==> (#[trigger] es[i]) is NUMBER,
    ensures
        text_of(ValueV::LIST(literal_values(es))) == number_list_text(es),
    decreases es.len(),
{
    reveal_with_fuel(crate::value::text_of, 3);
    reveal_with_fuel(crate::value::texts_of, 3);
    if es.len() == 0 {
        assert(literal_values(es) =~= Seq::<ValueV>::empty());
        assert(text_of(ValueV::LIST(literal_values(es))) =~= number_list_text(es));
    } else {
        assert forall|i: int| 0 <= i < es.drop_last().len() implies (#[trigger] es.drop_last()[
            i
        ]) is NUMBER by {
            assert(es.drop_last()[i] == es[i]);
        }
        lemma_number_list_text(es.drop_last());
        assert(literal_values(es).drop_last() =~= literal_values(es.drop_last()));
        assert(literal_values(es).last() == ValueV::NUMBER(es.last()->NUMBER_0));
        assert(crate::value::texts_of(literal_values(es)) == crate::value::texts_of(
            literal_values(es).drop_last(),
        ) + text_of(literal_values(es).last()) + seq![' ']);
        assert(text_of(ValueV::LIST(literal_values(es))) =~= number_list_text(es));
    }
}

/// Round trip: `get` applied to a list literal of numbers reproduces the
/// same sequence in source order, leaves the environment untouched, and
/// the result's text is each number's text followed by one space.
pub proof fn lemma_get_number_list_round_trip(env: EnvV, es: Seq<ExprV>, fuel: nat)
    requires
        fuel >= 8,
        forall|i: int| 0 <= i < es.len() ==> (#[trigger] es[i]) is NUMBER,
        env_lookup(env, seq!['g', 'e', 't']) == Option::Some(
            ValueV::NATIVE_FUNCTION(NativeFunction::GET, -1),
        ),
    ensures
        ev_call(env, seq![ExprV::IDENTIFIER(seq!['g', 'e', 't']), ExprV::LIST(es)], fuel)
            == (EvalOut { env, res: Result::Ok(ValueV::LIST(literal_values(es))) }),
        text_of(ValueV::LIST(literal_values(es))) == number_list_text(es),
{
    lemma_number_list_text(es);
    let gname = seq!['g', 'e', 't'];
    let top = seq![ExprV::IDENTIFIER(gname), ExprV::LIST(es)];
    assert(top[0] == ExprV::IDENTIFIER(gname));
    assert(top[1] == ExprV::LIST(es));
    assert(!is_define_name(gname));
    let f1 = (fuel - 1) as nat;
    assert(ev_call(env, top, fuel) == ev_call2(env, top, f1));
    let f2 = (f1 - 1) as nat;
    assert(ev_expr(env, top[0], f2) == (EvalOut {
        env,
        res: Result::Ok(ValueV::NATIVE_FUNCTION(NativeFunction::GET, -1)),
    }));
    // the single argument: the list literal of numbers
    let f3 = (f2 - 1) as nat;
    let f4 = (f3 - 1) as nat;
    let f5 = (f4 - 1) as nat;
    let inner = if es.len() == 0 {
        assert(ev_call(env, es, f4) == (EvalOut {
            env,
            res: Result::Ok(ValueV::LIST(Seq::empty())),
        }));
        assert(literal_values(es) =~= Seq::<ValueV>::empty());
        ValueV::LIST(literal_values(es))
    } else {
        assert(es[0] is NUMBER);
        assert(ev_call(env, es, f4) == ev_call2(env, es, f5));
        let f6 = (f5 - 1) as nat;
        assert(ev_expr(env, es[0], f6) == (EvalOut {
            env,
            res: Result::Ok(ValueV::NUMBER(es[0]->NUMBER_0)),
        }));
        lemma_number_literals_evaluate(env, es, 1, f6);
        assert(ev_call2(env, es, f5).res == Result::<ValueV, EvErr>::Ok(
            ValueV::LIST(seq![ValueV::NUMBER(es[0]->NUMBER_0)] + literal_values(es.skip(1))),
        ));
        assert(seq![ValueV::NUMBER(es[0]->NUMBER_0)] + literal_values(es.skip(1))
            =~= literal_values(es));
        ValueV::LIST(literal_values(es))
    };
    assert(ev_expr(env, top[1], f3) == (EvalOut { env, res: Result::Ok(inner) }));
    // the argument list of the outer call
    assert(ev_args(env, top, 2, f2) == (ArgsOut {
        env,
        res: Result::Ok(Seq::<ValueV>::empty()),
    }));
    assert(top[1] is LIST);
    assert(ev_args(env, top, 1, f2) == (ArgsOut { env, res: Result::Ok(seq![inner]) }));
    assert(nv_apply(env, NativeFunction::GET, seq![inner], f2) == (EvalOut {
        env,
        res: Result::Ok(inner),
    }));
    assert(ev_call2(env, top, f1) =~= (EvalOut {
        env,
        res: Result::Ok(ValueV::LIST(literal_values(es))),
    }));
}

/// Property-call equivalence: a call through a property access on a
/// base that is not a namespace identifier evaluates exactly as the call
/// of the property's name with the base spliced in as first argument.
pub proof fn lemma_property_call_equivalence(
    env: EnvV,
    base: ExprV,
    name: Seq<char>,
    args: Seq<ExprV>,
    fuel: nat,
)
    requires
        !(base is IDENTIFIER),
    ensures
        ev_call(env, seq![ExprV::PROPERTY(Box::new(base), name)] + args, fuel) == ev_call(
            env,
            seq![ExprV::IDENTIFIER(name), base] + args,
            fuel,
        ),
{
    let es1 = seq![ExprV::PROPERTY(Box::new(base), name)] + args;
    let es2 = seq![ExprV::IDENTIFIER(name), base] + args;
    assert(es1[0] == ExprV::PROPERTY(Box::new(base), name));
    assert(es2[0] == ExprV::IDENTIFIER(name));
    if fuel > 0 {
        assert(es1.skip(1) =~= args);
        assert(seq![ExprV::IDENTIFIER(name), base] + es1.skip(1) =~= es2);
    }
}

/// Evaluates a sequence of statements against an environment.
pub fn interpret_block(env: &mut Environment, exprs: &Vec<Expression>) -> (r: Result<
    Value,
    EvalError,
>)
    requires
        old(env).wf(),
    ensures
        final(env).wf(),
        final(env)@.scopes == old(env)@.scopes,
        ({
            let o = ev_seq(old(env)@, exprs_view(exprs@), 0, EVAL_FUEL as nat);
            final(env)@ == o.env && res_view(r) == o.res
        }),
{
    eval_sequence(env, exprs, 0, EVAL_FUEL)
}

} // verus!
