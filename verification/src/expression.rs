//! Expression trees. A parsed program is one expression; lists are calls,
//! blocks are lazily evaluated closures. The views of expressions and of
//! runtime values are defined together here because the two types nest in
//! one another.

use vstd::prelude::*;
use crate::number::Number;
use crate::value::{Value, ValueV};

verus! {

/// One node of the expression tree.
#[derive(Debug)]
pub enum Expression {
    /// A raw string template; escapes and `\(...)` interpolation spans are
    /// resolved when the string is evaluated.
    STRING(Vec<char>),
    NUMBER(Number),
    IDENTIFIER(Vec<char>),
    /// A call: the first element is the callee.
    LIST(Vec<Expression>),
    /// An unevaluated closure body.
    BLOCK(Vec<Expression>),
    /// Namespaced member access, `base.name`.
    PROPERTY(Box<Expression>, Vec<char>),
    /// A pre-evaluated value spliced in during parsing.
    VALUE(Value),
    /// A named argument or record field, `name: value`.
    KEY_VALUE(Vec<char>, Box<Expression>),
}

/// The mathematical image of an `Expression`.
pub enum ExprV {
    STRING(Seq<char>),
    NUMBER(Number),
    IDENTIFIER(Seq<char>),
    LIST(Seq<ExprV>),
    BLOCK(Seq<ExprV>),
    PROPERTY(Box<ExprV>, Seq<char>),
    VALUE(ValueV),
    KEY_VALUE(Seq<char>, Box<ExprV>),
}

pub open spec fn expr_view(e: Expression) -> ExprV
    decreases e,
{
    match e {
        Expression::STRING(s) => ExprV::STRING(s@),
        Expression::NUMBER(n) => ExprV::NUMBER(n),
        Expression::IDENTIFIER(s) => ExprV::IDENTIFIER(s@),
        Expression::LIST(es) => ExprV::LIST(exprs_view(es@)),
        Expression::BLOCK(es) => ExprV::BLOCK(exprs_view(es@)),
        Expression::PROPERTY(b, n) => ExprV::PROPERTY(Box::new(expr_view(*b)), n@),
        Expression::VALUE(v) => ExprV::VALUE(value_view(v)),
        Expression::KEY_VALUE(n, b) => ExprV::KEY_VALUE(n@, Box::new(expr_view(*b))),
    }
}

pub open spec fn exprs_view(s: Seq<Expression>) -> Seq<ExprV>
    decreases s,
{
    if s.len() == 0 {
        Seq::empty()
    } else {
        exprs_view(s.drop_last()).push(expr_view(s.last()))
    }
}

pub open spec fn value_view(v: Value) -> ValueV
    decreases v,
{
    match v {
        Value::NULL => ValueV::NULL,
        Value::NUMBER(n) => ValueV::NUMBER(n),
        Value::STRING(s) => ValueV::STRING(s@),
        Value::LIST(vs) => ValueV::LIST(values_view(vs@)),
        Value::BLOCK(es) => ValueV::BLOCK(exprs_view(es@)),
        Value::NATIVE_FUNCTION(f, a) => ValueV::NATIVE_FUNCTION(f, a as int),
        Value::KEY_VALUE(n, b) => ValueV::KEY_VALUE(n@, Box::new(value_view(*b))),
    }
}

pub open spec fn values_view(s: Seq<Value>) -> Seq<ValueV>
    decreases s,
{
    if s.len() == 0 {
        Seq::empty()
    } else {
        values_view(s.drop_last()).push(value_view(s.last()))
    }
}

impl View for Expression {
    type V = ExprV;

    open spec fn view(&self) -> ExprV {
        expr_view(*self)
    }
}

pub proof fn lemma_exprs_view_index(s: Seq<Expression>)
    ensures
        exprs_view(s).len() == s.len(),
        forall|i: int| 0 <= i < s.len() ==> #[trigger] exprs_view(s)[i] == expr_view(s[i]),
    decreases s,
{
    if s.len() > 0 {
        lemma_exprs_view_index(s.drop_last());
    }
}

pub proof fn lemma_values_view_index(s: Seq<Value>)
    ensures
        values_view(s).len() == s.len(),
        forall|i: int| 0 <= i < s.len() ==> #[trigger] values_view(s)[i] == value_view(s[i]),
    decreases s,
{
    if s.len() > 0 {
        lemma_values_view_index(s.drop_last());
    }
}

/// The placeholder the parser splices where an expression is missing.
pub proof fn lemma_value_null_view()
    ensures
        Expression::VALUE(Value::NULL)@ == ExprV::VALUE(ValueV::NULL),
{
    reveal_with_fuel(expr_view, 2);
    reveal_with_fuel(value_view, 2);
}

pub proof fn lemma_exprs_view_push(s: Seq<Expression>, e: Expression)
    ensures
        exprs_view(s.push(e)) == exprs_view(s).push(expr_view(e)),
{
    assert(s.push(e).drop_last() =~= s);
    assert(s.push(e).last() == e);
}

pub proof fn lemma_exprs_view_parts(s: Seq<Expression>)
    requires
        s.len() > 0,
    ensures
        exprs_view(s).len() == s.len(),
        exprs_view(s).drop_last() == exprs_view(s.drop_last()),
        exprs_view(s).last() == expr_view(s.last()),
{
    lemma_exprs_view_index(s);
    assert(exprs_view(s).drop_last() =~= exprs_view(s.drop_last()));
}

pub proof fn lemma_values_view_push(s: Seq<Value>, v: Value)
    ensures
        values_view(s.push(v)) == values_view(s).push(value_view(v)),
{
    assert(s.push(v).drop_last() =~= s);
    assert(s.push(v).last() == v);
}

/// A deep, view-preserving copy of one expression.
pub fn duplicate_expression(e: &Expression) -> (r: Expression)
    ensures
        r@ == e@,
    decreases e,
{
    match e {
        Expression::STRING(s) => Expression::STRING(crate::chars::copy_chars(s)),
        Expression::NUMBER(n) => Expression::NUMBER(*n),
        Expression::IDENTIFIER(s) => Expression::IDENTIFIER(crate::chars::copy_chars(s)),
        Expression::LIST(es) => Expression::LIST(duplicate_expressions(es)),
        Expression::BLOCK(es) => Expression::BLOCK(duplicate_expressions(es)),
        Expression::PROPERTY(b, n) => Expression::PROPERTY(
            Box::new(duplicate_expression(b)),
            crate::chars::copy_chars(n),
        ),
        Expression::VALUE(v) => Expression::VALUE(crate::value::duplicate_value(v)),
        Expression::KEY_VALUE(n, b) => Expression::KEY_VALUE(
            crate::chars::copy_chars(n),
            Box::new(duplicate_expression(b)),
        ),
    }
}

/// A deep, view-preserving copy of an expression vector.
pub fn duplicate_expressions(es: &Vec<Expression>) -> (r: Vec<Expression>)
    ensures
        exprs_view(r@) == exprs_view(es@),
    decreases es@,
{
    let mut r: Vec<Expression> = Vec::new();
    let mut i: usize = 0;
    while i < es.len()
        invariant
            i <= es@.len(),
            r@.len() == i,
            forall|j: int| 0 <= j < i ==> #[trigger] expr_view(r@[j]) == expr_view(es@[j]),
        decreases es@.len() - i,
    {
        let d = duplicate_expression(&es[i]);
        r.push(d);
        i = i + 1;
    }
    proof {
        lemma_exprs_view_index(r@);
        lemma_exprs_view_index(es@);
        assert(exprs_view(r@) =~= exprs_view(es@));
    }
    r
}

} // verus!
