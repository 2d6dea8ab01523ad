//! The parser: builds one expression tree from the token stream by three
//! mutually recursive productions over one cursor (list, block, single
//! expression), desugaring subscripts into `get` calls, pipes into
//! first-argument splices, dots into property access and colons into
//! key-value pairs. Errors are reported as diagnostics and accumulate into
//! a failure flag; parsing continues past them.
//!
//! The meaning of parsing is given by the spec functions [`p_items`],
//! [`p_expr`] and [`p_ident`]; every parsing method is proved to agree
//! with them.

use vstd::prelude::*;
use crate::chars::{chars_eq_str, copy_chars, string_to_chars};
use crate::expression::{Expression, ExprV, expr_view, exprs_view, lemma_exprs_view_index,
    lemma_exprs_view_push, lemma_exprs_view_parts, lemma_value_null_view};
use crate::location::{Diagnostic, DiagV, Location, LocV};
use crate::number::Number;
use crate::token::{Token, TokV, toks_view};
use crate::value::{Value, ValueV};

verus! {

/// The location used for diagnostics that no token carries.
pub open spec fn empty_loc() -> LocV {
    LocV { module: Seq::empty(), line: 0, offset: 0 }
}

/// The result of parsing a run of items (the body of a list or block).
#[verifier::ext_equal]
pub struct ItemsOut {
    pub es: Seq<ExprV>,
    pub j: int,
    pub err: bool,
    pub diags: Seq<DiagV>,
}

/// The result of parsing one expression.
#[verifier::ext_equal]
pub struct ExprOut {
    pub e: ExprV,
    pub j: int,
    pub err: bool,
    pub diags: Seq<DiagV>,
}

/// The result of handling one identifier, which may consume the
/// accumulated expression to its left.
#[verifier::ext_equal]
pub struct IdentOut {
    pub acc: Seq<ExprV>,
    pub e: ExprV,
    pub j: int,
    pub err: bool,
    pub diags: Seq<DiagV>,
}

/// The termination measure of parsing: how many tokens are left.
pub open spec fn prem(ts: Seq<TokV>, i: int) -> int {
    if i <= ts.len() {
        ts.len() - i + 1
    } else {
        0
    }
}

/// Guaranteed forward movement for the parsing measure.
pub open spec fn padv(i: int, j: int) -> int {
    if j > i {
        j
    } else {
        i + 1
    }
}

pub open spec fn loc_of(t: TokV) -> LocV {
    match t {
        TokV::LEFT_BRACKET(l) => l,
        TokV::RIGHT_BRACKET(l) => l,
        TokV::LEFT_SQUARE(l) => l,
        TokV::RIGHT_SQUARE(l) => l,
        TokV::LEFT_CURLY(l) => l,
        TokV::RIGHT_CURLY(l) => l,
        TokV::DOT(l) => l,
        TokV::COLON(l) => l,
        TokV::STRING(_, l) => l,
        TokV::NUMBER(_, l) => l,
        TokV::IDENTIFIER(_, l) => l,
    }
}

pub open spec fn diag_at(diags: Seq<DiagV>, msg: Seq<char>, loc: LocV) -> Seq<DiagV> {
    diags.push(DiagV { message: msg, location: loc })
}

/// The name the subscript sugar calls: `a[k]` becomes `(get a k)`.
pub open spec fn get_name() -> Seq<char> {
    seq!['g', 'e', 't']
}

/// The key read by a subscript: one token, or a whole nested list or
/// block. Yields the key, the position after it, and the accumulated
/// error state.
pub open spec fn p_subscript_key(ts: Seq<TokV>, i: int, err: bool, diags: Seq<DiagV>) -> ExprOut
    decreases prem(ts, i), 2int,
{
    if i >= ts.len() {
        ExprOut {
            e: ExprV::NUMBER(Number { mantissa: 0, scale: 0 }),
            j: i,
            err: true,
            diags: diag_at(diags, "Subscript must not end here."@, empty_loc()),
        }
    } else {
        match ts[i] {
            TokV::LEFT_CURLY(_) => {
                let sub = p_items(ts, i + 1, Seq::empty(), false, err, diags);
                ExprOut { e: ExprV::BLOCK(sub.es), j: sub.j, err: sub.err, diags: sub.diags }
            },
            TokV::LEFT_BRACKET(_) => {
                let sub = p_items(ts, i + 1, Seq::empty(), true, err, diags);
                ExprOut { e: ExprV::LIST(sub.es), j: sub.j, err: sub.err, diags: sub.diags }
            },
            TokV::STRING(s, _) => ExprOut { e: ExprV::STRING(s), j: i + 1, err, diags },
            TokV::NUMBER(n, _) => ExprOut { e: ExprV::NUMBER(n), j: i + 1, err, diags },
            TokV::IDENTIFIER(nm, _) => ExprOut { e: ExprV::IDENTIFIER(nm), j: i + 1, err, diags },
            _ => ExprOut {
                e: ExprV::NUMBER(Number { mantissa: 0, scale: 0 }),
                j: i + 1,
                err: true,
                diags: diag_at(diags, "Token is disallowed in subscript."@, loc_of(ts[i])),
            },
        }
    }
}

/// Parsing a run of items until the closing delimiter: the body of a list
/// (`is_list`) or of a block. This is the meaning of `parse_list` and
/// `parse_block`, which differ only in which closer ends them.
pub open spec fn p_items(
    ts: Seq<TokV>,
    i: int,
    acc: Seq<ExprV>,
    is_list: bool,
    err: bool,
    diags: Seq<DiagV>,
) -> ItemsOut
    decreases prem(ts, i), 3int,
{
    if i >= ts.len() {
        ItemsOut { es: acc, j: i, err, diags }
    } else {
        match ts[i] {
            TokV::LEFT_BRACKET(_) => {
                let sub = p_items(ts, i + 1, Seq::empty(), true, err, diags);
                p_items(
                    ts,
                    padv(i, sub.j),
                    acc.push(ExprV::LIST(sub.es)),
                    is_list,
                    sub.err,
                    sub.diags,
                )
            },
            TokV::RIGHT_BRACKET(l) => {
                if is_list {
                    ItemsOut { es: acc, j: i + 1, err, diags }
                } else {
                    p_items(
                        ts,
                        i + 1,
                        acc,
                        is_list,
                        true,
                        diag_at(diags, "Unexpected )."@, l),
                    )
                }
            },
            TokV::LEFT_CURLY(_) => {
                let sub = p_items(ts, i + 1, Seq::empty(), false, err, diags);
                p_items(
                    ts,
                    padv(i, sub.j),
                    acc.push(ExprV::BLOCK(sub.es)),
                    is_list,
                    sub.err,
                    sub.diags,
                )
            },
            TokV::RIGHT_CURLY(l) => {
                if !is_list {
                    ItemsOut { es: acc, j: i + 1, err, diags }
                } else {
                    p_items(
                        ts,
                        i + 1,
                        acc,
                        is_list,
                        true,
                        diag_at(diags, "Unexpected }."@, l),
                    )
                }
            },
            TokV::STRING(s, _) => p_items(
                ts,
                i + 1,
                acc.push(ExprV::STRING(s)),
                is_list,
                err,
                diags,
            ),
            TokV::NUMBER(n, _) => p_items(
                ts,
                i + 1,
                acc.push(ExprV::NUMBER(n)),
                is_list,
                err,
                diags,
            ),
            TokV::IDENTIFIER(nm, _) => {
                let r = p_ident(ts, i + 1, nm, acc, is_list, err, diags);
                p_items(ts, padv(i, r.j), r.acc.push(r.e), is_list, r.err, r.diags)
            },
            TokV::DOT(l) => {
                if acc.len() == 0 {
                    p_items(
                        ts,
                        i + 1,
                        acc,
                        is_list,
                        true,
                        diag_at(diags, "Dot must be preceded by a expression."@, l),
                    )
                } else if i + 1 < ts.len() && ts[i + 1] is IDENTIFIER {
                    let nm = ts[i + 1]->IDENTIFIER_0;
                    p_items(
                        ts,
                        i + 2,
                        acc.drop_last().push(
                            ExprV::PROPERTY(Box::new(acc.last()), nm),
                        ),
                        is_list,
                        err,
                        diags,
                    )
                } else if i + 1 < ts.len() {
                    p_items(
                        ts,
                        i + 2,
                        acc.drop_last(),
                        is_list,
                        true,
                        diag_at(
                            diags,
                            "Key can only be an identifier."@,
                            loc_of(ts[i + 1]),
                        ),
                    )
                } else {
                    p_items(
                        ts,
                        i + 1,
                        acc.drop_last(),
                        is_list,
                        true,
                        diag_at(diags, "Key can only be an identifier."@, l),
                    )
                }
            },
            TokV::LEFT_SQUARE(l) => {
                if acc.len() == 0 {
                    p_items(
                        ts,
                        i + 1,
                        acc,
                        is_list,
                        true,
                        diag_at(diags, "Subscript must be preceded by a expression."@, l),
                    )
                } else {
                    let key = p_subscript_key(ts, i + 1, err, diags);
                    let k = padv(i, key.j);
                    let sugar = ExprV::LIST(
                        seq![ExprV::IDENTIFIER(get_name()), acc.last(), key.e],
                    );
                    if k < ts.len() && ts[k] is RIGHT_SQUARE {
                        p_items(
                            ts,
                            k + 1,
                            acc.drop_last().push(sugar),
                            is_list,
                            key.err,
                            key.diags,
                        )
                    } else if k < ts.len() {
                        p_items(
                            ts,
                            k + 1,
                            acc.drop_last().push(sugar),
                            is_list,
                            true,
                            diag_at(key.diags, "Subscript must end with ]."@, loc_of(ts[k])),
                        )
                    } else {
                        p_items(
                            ts,
                            k,
                            acc.drop_last().push(sugar),
                            is_list,
                            true,
                            diag_at(key.diags, "Subscript must end with ]."@, empty_loc()),
                        )
                    }
                }
            },
            TokV::RIGHT_SQUARE(l) => p_items(
                ts,
                i + 1,
                acc,
                is_list,
                true,
                diag_at(diags, "Unexpected ]."@, l),
            ),
            TokV::COLON(l) => p_items(
                ts,
                i + 1,
                acc,
                is_list,
                true,
                diag_at(diags, "Unexpected :."@, l),
            ),
        }
    }
}

/// Parsing exactly one expression, used for the value after a colon.
pub open spec fn p_expr(ts: Seq<TokV>, i: int, err: bool, diags: Seq<DiagV>) -> ExprOut
    decreases prem(ts, i), 2int,
{
    if i >= ts.len() {
        ExprOut {
            e: ExprV::VALUE(ValueV::NULL),
            j: i,
            err: true,
            diags: diag_at(diags, "Expected an expression."@, empty_loc()),
        }
    } else {
        match ts[i] {
            TokV::LEFT_BRACKET(_) => {
                let sub = p_items(ts, i + 1, Seq::empty(), true, err, diags);
                ExprOut { e: ExprV::LIST(sub.es), j: sub.j, err: sub.err, diags: sub.diags }
            },
            TokV::LEFT_CURLY(_) => {
                let sub = p_items(ts, i + 1, Seq::empty(), false, err, diags);
                ExprOut { e: ExprV::BLOCK(sub.es), j: sub.j, err: sub.err, diags: sub.diags }
            },
            TokV::STRING(s, _) => ExprOut { e: ExprV::STRING(s), j: i + 1, err, diags },
            TokV::NUMBER(n, _) => ExprOut { e: ExprV::NUMBER(n), j: i + 1, err, diags },
            TokV::IDENTIFIER(nm, _) => {
                let r = p_ident(ts, i + 1, nm, Seq::empty(), false, err, diags);
                ExprOut { e: r.e, j: r.j, err: r.err, diags: r.diags }
            },
            _ => ExprOut {
                e: ExprV::VALUE(ValueV::NULL),
                j: i + 1,
                err: true,
                diags: diag_at(diags, "Unexpected token."@, loc_of(ts[i])),
            },
        }
    }
}

/// The pipe symbol.
pub open spec fn pipe_name() -> Seq<char> {
    seq!['>']
}

/// Handling one identifier just consumed at `i - 1`. A `>` that opens a
/// list is a plain function name; elsewhere it pipes the expression to its
/// left into the following list as the first argument. Any other
/// identifier followed by a colon makes a key-value pair.
pub open spec fn p_ident(
    ts: Seq<TokV>,
    i: int,
    name: Seq<char>,
    acc: Seq<ExprV>,
    is_list: bool,
    err: bool,
    diags: Seq<DiagV>,
) -> IdentOut
    decreases prem(ts, i), 2int,
{
    if name == pipe_name() {
        if acc.len() == 0 && is_list {
            IdentOut { acc, e: ExprV::IDENTIFIER(name), j: i, err, diags }
        } else if acc.len() == 0 {
            IdentOut {
                acc,
                e: ExprV::VALUE(ValueV::NULL),
                j: i,
                err: true,
                diags: diag_at(
                    diags,
                    "Unexpected pipe operator (>). It should be placed after a list."@,
                    empty_loc(),
                ),
            }
        } else {
            let last = acc.last();
            let acc1 = acc.drop_last();
            if i >= ts.len() {
                IdentOut {
                    acc: acc1,
                    e: ExprV::LIST(seq![last]),
                    j: i,
                    err: true,
                    diags: diag_at(
                        diags,
                        "There must be a list after the pipe operator (>)."@,
                        empty_loc(),
                    ),
                }
            } else {
                let ok = ts[i] is LEFT_BRACKET;
                let diags1 = if ok {
                    diags
                } else {
                    diag_at(
                        diags,
                        "There must be a list after the pipe operator (>)."@,
                        loc_of(ts[i]),
                    )
                };
                let err1 = if ok {
                    err
                } else {
                    true
                };
                let sub = p_items(ts, i + 1, Seq::empty(), true, err1, diags1);
                if sub.es.len() == 0 {
                    IdentOut {
                        acc: acc1,
                        e: ExprV::LIST(seq![last]),
                        j: sub.j,
                        err: true,
                        diags: diag_at(
                            sub.diags,
                            "The list after the pipe operator (>) must not be empty."@,
                            empty_loc(),
                        ),
                    }
                } else {
                    IdentOut {
                        acc: acc1,
                        e: ExprV::LIST(sub.es.insert(1, last)),
                        j: sub.j,
                        err: sub.err,
                        diags: sub.diags,
                    }
                }
            }
        }
    } else {
        if i < ts.len() && ts[i] is COLON {
            let v = p_expr(ts, i + 1, err, diags);
            IdentOut {
                acc,
                e: ExprV::KEY_VALUE(name, Box::new(v.e)),
                j: v.j,
                err: v.err,
                diags: v.diags,
            }
        } else {
            IdentOut { acc, e: ExprV::IDENTIFIER(name), j: i, err, diags }
        }
    }
}

/// Pipe desugaring is direct nesting: with an expression to its left and
/// a parenthesised call to its right, `>` pops the left expression and
/// splices it in as the call's first argument, so `A > (f b)` parses to
/// the same tree as `(f A b)`; chains compose because the result is
/// itself one expression.
pub proof fn lemma_pipe_desugars_to_first_argument(
    ts: Seq<TokV>,
    i: int,
    acc: Seq<ExprV>,
    err: bool,
    diags: Seq<DiagV>,
)
    requires
        acc.len() > 0,
        0 <= i < ts.len(),
        ts[i] is LEFT_BRACKET,
        p_items(ts, i + 1, Seq::empty(), true, err, diags).es.len() > 0,
    ensures
        ({
            let sub = p_items(ts, i + 1, Seq::empty(), true, err, diags);
            p_ident(ts, i, pipe_name(), acc, true, err, diags) == (IdentOut {
                acc: acc.drop_last(),
                e: ExprV::LIST(sub.es.insert(1, acc.last())),
                j: sub.j,
                err: sub.err,
                diags: sub.diags,
            })
        }),
{
}

/// A `>` that opens a list stays a plain identifier, so the
/// greater-than builtin remains callable.
pub proof fn lemma_pipe_opening_a_list_is_a_name(
    ts: Seq<TokV>,
    i: int,
    err: bool,
    diags: Seq<DiagV>,
)
    ensures
        p_ident(ts, i, pipe_name(), Seq::empty(), true, err, diags) == (IdentOut {
            acc: Seq::empty(),
            e: ExprV::IDENTIFIER(pipe_name()),
            j: i,
            err,
            diags,
        }),
{
}

/// Parsing a whole program: the first expression of the outer run.
pub open spec fn p_program(ts: Seq<TokV>) -> ExprOut {
    let r = p_items(ts, 0, Seq::empty(), true, false, Seq::empty());
    if r.es.len() > 0 {
        ExprOut { e: r.es[0], j: r.j, err: r.err, diags: r.diags }
    } else {
        ExprOut {
            e: ExprV::VALUE(ValueV::NULL),
            j: r.j,
            err: true,
            diags: diag_at(r.diags, "Nothing to parse."@, empty_loc()),
        }
    }
}

/// The views of a diagnostics list.
pub open spec fn pdiags_view(s: Seq<Diagnostic>) -> Seq<DiagV> {
    crate::tokenizer::diags_view(s)
}

/// The parser: one cursor over the token stream, the program read so far,
/// and the accumulated diagnostics.
#[derive(Debug)]
pub struct Parser {
    pub code: Expression,
    pub current_index: usize,
    pub tokens: Vec<Token>,
    pub had_error: bool,
    pub diagnostics: Vec<Diagnostic>,
}

/// The mathematical image of a `Parser`.
#[verifier::ext_equal]
pub struct PsV {
    pub code: ExprV,
    pub i: int,
    pub toks: Seq<TokV>,
    pub err: bool,
    pub diags: Seq<DiagV>,
}

impl View for Parser {
    type V = PsV;

    open spec fn view(&self) -> PsV {
        PsV {
            code: self.code@,
            i: self.current_index as int,
            toks: toks_view(self.tokens@),
            err: self.had_error,
            diags: pdiags_view(self.diagnostics@),
        }
    }
}

impl Parser {
    /// The cursor never leaves the token stream, and the token views line
    /// up with the tokens.
    pub open spec fn wf(&self) -> bool {
        &&& self.current_index <= self.tokens@.len()
        &&& toks_view(self.tokens@).len() == self.tokens@.len()
        &&& forall|k: int|
            0 <= k < self.tokens@.len() ==> #[trigger] toks_view(self.tokens@)[k]
                == self.tokens@[k]@
    }

    /// A fresh parser over one token stream.
    pub fn new(tokens: Vec<Token>) -> (r: Parser)
        ensures
            r.wf(),
            r@.code == ExprV::NUMBER(Number { mantissa: 0, scale: 0 }),
            r@.i == 0,
            r@.toks == toks_view(tokens@),
            r@.err == false,
            r@.diags == Seq::<DiagV>::empty(),
    {
        let r = Parser {
            code: Expression::NUMBER(Number { mantissa: 0, scale: 0 }),
            current_index: 0,
            tokens,
            had_error: false,
            diagnostics: Vec::new(),
        };
        proof {
            assert(r@.diags =~= Seq::<DiagV>::empty());
            assert forall|k: int| 0 <= k < r.tokens@.len() implies #[trigger] toks_view(
                r.tokens@,
            )[k] == r.tokens@[k]@ by {}
        }
        r
    }

    /// Takes the current token, as a view-equal copy, and advances.
    fn next_token(&mut self) -> (t: Token)
        requires
            old(self).wf(),
            old(self)@.i < old(self)@.toks.len(),
        ensures
            final(self).wf(),
            t@ == old(self)@.toks[old(self)@.i],
            final(self)@ == (PsV { i: old(self)@.i + 1, ..old(self)@ }),
    {
        let n = self.tokens.len();
        let t = crate::tokenizer::duplicate_token(&self.tokens[self.current_index]);
        proof {
            assert(self@.toks.len() == self.tokens@.len());
            assert(self.current_index < n);
        }
        self.current_index = self.current_index + 1;
        t
    }

    /// Records one diagnostic and sets the failure flag.
    fn report(&mut self, msg: &str, location: Location)
        ensures
            final(self)@ == (PsV {
                err: true,
                diags: diag_at(old(self)@.diags, msg@, location@),
                ..old(self)@
            }),
            final(self).wf() == old(self).wf(),
    {
        let message = string_to_chars(msg);
        self.diagnostics.push(Diagnostic { message, location });
        self.had_error = true;
        proof {
            assert(pdiags_view(self.diagnostics@) =~= diag_at(
                old(self)@.diags,
                msg@,
                location@,
            ));
            assert(final(self)@ =~= (PsV {
                err: true,
                diags: diag_at(old(self)@.diags, msg@, location@),
                ..old(self)@
            }));
        }
    }

    /// Reads the key of a subscript: one token, or a whole nested list or
    /// block.
    fn parse_subscript_key(&mut self) -> (r: Expression)
        requires
            old(self).wf(),
        ensures
            final(self).wf(),
            ({
                let out = p_subscript_key(old(self)@.toks, old(self)@.i, old(self)@.err, old(
                    self,
                )@.diags);
                r@ == out.e && final(self)@ == (PsV {
                    i: out.j,
                    err: out.err,
                    diags: out.diags,
                    ..old(self)@
                })
            }),
            final(self)@.i >= old(self)@.i,
        decreases self.tokens@.len() - self@.i, 2int,
    {
        if self.current_index >= self.tokens.len() {
            self.report("Subscript must not end here.", Location::empty());
            proof {
                assert(final(self)@ =~= (PsV {
                    i: p_subscript_key(old(self)@.toks, old(self)@.i, old(self)@.err, old(
                        self,
                    )@.diags).j,
                    err: true,
                    diags: p_subscript_key(old(self)@.toks, old(self)@.i, old(self)@.err, old(
                        self,
                    )@.diags).diags,
                    ..old(self)@
                }));
            }
            return Expression::NUMBER(Number { mantissa: 0, scale: 0 });
        }
        let t = self.next_token();
        match t {
            Token::LEFT_CURLY(_) => {
                let es = self.parse_items(false);
                Expression::BLOCK(es)
            },
            Token::LEFT_BRACKET(_) => {
                let es = self.parse_items(true);
                Expression::LIST(es)
            },
            Token::STRING(s, _) => Expression::STRING(s),
            Token::NUMBER(n, _) => Expression::NUMBER(n),
            Token::IDENTIFIER(nm, _) => Expression::IDENTIFIER(nm),
            _ => {
                let loc = t.location().duplicate();
                self.report("Token is disallowed in subscript.", loc);
                Expression::NUMBER(Number { mantissa: 0, scale: 0 })
            },
        }
    }

    /// Parses items until the closing delimiter of a list (`is_list`) or
    /// of a block; the shared body of [`Parser::parse_list`] and
    /// [`Parser::parse_block`].
    #[verifier::rlimit(100)]
    #[verifier::spinoff_prover]
    fn parse_items(&mut self, is_list: bool) -> (r: Vec<Expression>)
        requires
            old(self).wf(),
        ensures
            final(self).wf(),
            ({
                let out = p_items(
                    old(self)@.toks,
                    old(self)@.i,
                    Seq::empty(),
                    is_list,
                    old(self)@.err,
                    old(self)@.diags,
                );
                exprs_view(r@) == out.es && final(self)@ == (PsV {
                    i: out.j,
                    err: out.err,
                    diags: out.diags,
                    ..old(self)@
                })
            }),
            final(self)@.i >= old(self)@.i,
        decreases self.tokens@.len() - self@.i, 3int,
    {
        let ghost ts = self@.toks;
        let mut items: Vec<Expression> = Vec::new();
        proof {
            assert(exprs_view(items@) =~= Seq::<ExprV>::empty());
        }
        while self.current_index < self.tokens.len()
            invariant
                self.wf(),
                ts == old(self)@.toks,
                self@.toks == ts,
                self@.code == old(self)@.code,
                self@.i >= old(self)@.i,
                p_items(ts, self@.i, exprs_view(items@), is_list, self@.err, self@.diags)
                    == p_items(
                    ts,
                    old(self)@.i,
                    Seq::empty(),
                    is_list,
                    old(self)@.err,
                    old(self)@.diags,
                ),
            decreases ts.len() - self@.i,
        {
            let ghost pre = self@;
            let ghost pre_acc = exprs_view(items@);
            let t = self.next_token();
            match t {
                Token::LEFT_BRACKET(_) => {
                    let sub = self.parse_items(true);
                    let ghost ip = items@;
                    items.push(Expression::LIST(sub));
                    proof {
                        lemma_exprs_view_push(ip, items@.last());
                    }
                },
                Token::RIGHT_BRACKET(l) => {
                    if is_list {
                        proof {
                            assert(p_items(ts, pre.i, pre_acc, is_list, pre.err, pre.diags)
                                =~= (ItemsOut {
                                es: pre_acc,
                                j: pre.i + 1,
                                err: pre.err,
                                diags: pre.diags,
                            }));
                            assert(final(self)@ =~= (PsV { i: pre.i + 1, ..pre }));
                        }
                        return items;
                    }
                    self.report("Unexpected ).", l);
                },
                Token::LEFT_CURLY(_) => {
                    let sub = self.parse_items(false);
                    let ghost ip = items@;
                    items.push(Expression::BLOCK(sub));
                    proof {
                        lemma_exprs_view_push(ip, items@.last());
                    }
                },
                Token::RIGHT_CURLY(l) => {
                    if !is_list {
                        proof {
                            assert(final(self)@ =~= (PsV { i: pre.i + 1, ..pre }));
                        }
                        return items;
                    }
                    self.report("Unexpected }.", l);
                },
                Token::STRING(s, _) => {
                    let ghost ip = items@;
                    items.push(Expression::STRING(s));
                    proof {
                        lemma_exprs_view_push(ip, items@.last());
                    }
                },
                Token::NUMBER(n, _) => {
                    let ghost ip = items@;
                    items.push(Expression::NUMBER(n));
                    proof {
                        lemma_exprs_view_push(ip, items@.last());
                    }
                },
                Token::IDENTIFIER(nm, _) => {
                    let e = self.parse_identifier(nm, &mut items, is_list);
                    let ghost ip = items@;
                    items.push(e);
                    proof {
                        lemma_exprs_view_push(ip, items@.last());
                    }
                },
                Token::DOT(l) => {
                    if items.len() == 0 {
                        self.report("Dot must be preceded by a expression.", l);
                    } else {
                        proof {
                            lemma_exprs_view_parts(items@);
                        }
                        let last = match items.pop() {
                            Option::Some(e) => e,
                            Option::None => {
                                proof {
                                    assert(false);
                                }
                                Expression::VALUE(Value::NULL)
                            },
                        };
                        if self.current_index < self.tokens.len() {
                            let t2 = self.next_token();
                            match t2 {
                                Token::IDENTIFIER(nm, _) => {
                                    let ghost ip = items@;
                                    items.push(
                                        Expression::PROPERTY(Box::new(last), nm),
                                    );
                                    proof {
                                        lemma_exprs_view_push(ip, items@.last());
                                    }
                                },
                                _ => {
                                    let loc = t2.location().duplicate();
                                    self.report("Key can only be an identifier.", loc);
                                },
                            }
                        } else {
                            self.report("Key can only be an identifier.", l);
                        }
                    }
                },
                Token::LEFT_SQUARE(l) => {
                    if items.len() == 0 {
                        self.report("Subscript must be preceded by a expression.", l);
                    } else {
                        proof {
                            lemma_exprs_view_parts(items@);
                        }
                        let last = match items.pop() {
                            Option::Some(e) => e,
                            Option::None => {
                                proof {
                                    assert(false);
                                }
                                Expression::VALUE(Value::NULL)
                            },
                        };
                        let key = self.parse_subscript_key();
                        if self.current_index < self.tokens.len() {
                            let t2 = self.next_token();
                            match t2 {
                                Token::RIGHT_SQUARE(_) => {},
                                _ => {
                                    let loc = t2.location().duplicate();
                                    self.report("Subscript must end with ].", loc);
                                },
                            }
                        } else {
                            self.report("Subscript must end with ].", Location::empty());
                        }
                        let mut sugar: Vec<Expression> = Vec::new();
                        sugar.push(Expression::IDENTIFIER(string_to_chars("get")));
                        sugar.push(last);
                        sugar.push(key);
                        proof {
                            reveal_strlit("get");
                            assert("get"@ =~= get_name());
                            lemma_exprs_view_index(sugar@);
                            assert(exprs_view(sugar@) =~= seq![
                                ExprV::IDENTIFIER(get_name()),
                                pre_acc.last(),
                                exprs_view(sugar@)[2],
                            ]);
                        }
                        let ghost ip = items@;
                        items.push(Expression::LIST(sugar));
                        proof {
                            lemma_exprs_view_push(ip, items@.last());
                        }
                    }
                },
                Token::RIGHT_SQUARE(l) => {
                    self.report("Unexpected ].", l);
                },
                Token::COLON(l) => {
                    self.report("Unexpected :.", l);
                },
            }
            proof {
                assert(p_items(ts, pre.i, pre_acc, is_list, pre.err, pre.diags) == p_items(
                    ts,
                    self@.i,
                    exprs_view(items@),
                    is_list,
                    self@.err,
                    self@.diags,
                ));
            }
        }
        proof {
            assert(final(self)@ =~= (PsV { i: self@.i, err: self@.err, diags: self@.diags, ..old(
                self,
            )@ }));
        }
        items
    }

    /// Handles one identifier just consumed. A `>` that opens a list is a
    /// plain function name; elsewhere it pipes the expression to its left
    /// into the following list as the first argument. Any other identifier
    /// followed by a colon makes a key-value pair.
    fn parse_identifier(
        &mut self,
        identifier: Vec<char>,
        current_list: &mut Vec<Expression>,
        is_list: bool,
    ) -> (r: Expression)
        requires
            old(self).wf(),
        ensures
            final(self).wf(),
            ({
                let out = p_ident(
                    old(self)@.toks,
                    old(self)@.i,
                    identifier@,
                    exprs_view(old(current_list)@),
                    is_list,
                    old(self)@.err,
                    old(self)@.diags,
                );
                exprs_view(final(current_list)@) == out.acc && r@ == out.e && final(self)@
                    == (PsV { i: out.j, err: out.err, diags: out.diags, ..old(self)@ })
            }),
            final(self)@.i >= old(self)@.i,
        decreases self.tokens@.len() - self@.i, 2int,
    {
        let is_pipe = chars_eq_str(&identifier, ">");
        proof {
            reveal_strlit(">");
            assert(">"@ =~= pipe_name());
            lemma_exprs_view_index(current_list@);
        }
        if is_pipe {
            if current_list.len() == 0 && is_list {
                return Expression::IDENTIFIER(identifier);
            }
            if current_list.len() == 0 {
                self.report(
                    "Unexpected pipe operator (>). It should be placed after a list.",
                    Location::empty(),
                );
                proof {
                    lemma_value_null_view();
                }
                return Expression::VALUE(Value::NULL);
            }
            proof {
                lemma_exprs_view_parts(current_list@);
            }
            let last = match current_list.pop() {
                Option::Some(e) => e,
                Option::None => {
                    proof {
                        assert(false);
                    }
                    Expression::VALUE(Value::NULL)
                },
            };
            if self.current_index >= self.tokens.len() {
                self.report(
                    "There must be a list after the pipe operator (>).",
                    Location::empty(),
                );
                let mut es: Vec<Expression> = Vec::new();
                es.push(last);
                proof {
                    lemma_exprs_view_index(es@);
                    assert(exprs_view(es@) =~= seq![
                        exprs_view(old(current_list)@).last(),
                    ]);
                }
                return Expression::LIST(es);
            }
            let t = self.next_token();
            match t {
                Token::LEFT_BRACKET(_) => {},
                _ => {
                    let loc = t.location().duplicate();
                    self.report("There must be a list after the pipe operator (>).", loc);
                },
            }
            let mut es = self.parse_items(true);
            if es.len() == 0 {
                self.report(
                    "The list after the pipe operator (>) must not be empty.",
                    Location::empty(),
                );
                es.push(last);
                proof {
                    lemma_exprs_view_index(es@);
                    assert(exprs_view(es@) =~= seq![
                        exprs_view(old(current_list)@).last(),
                    ]);
                }
            } else {
                let ghost es_pre = es@;
                es.insert(1, last);
                proof {
                    lemma_exprs_view_index(es@);
                    lemma_exprs_view_index(es_pre);
                    assert(exprs_view(es@) =~= exprs_view(es_pre).insert(
                        1,
                        exprs_view(old(current_list)@).last(),
                    ));
                }
            }
            Expression::LIST(es)
        } else {
            let mut has_colon = false;
            if self.current_index < self.tokens.len() {
                has_colon = matches!(&self.tokens[self.current_index], Token::COLON(_));
            }
            if has_colon {
                let _ = self.next_token();
                let v = self.parse_expression();
                Expression::KEY_VALUE(identifier, Box::new(v))
            } else {
                Expression::IDENTIFIER(identifier)
            }
        }
    }

    /// Parses exactly one expression, used for the value after a colon.
    pub fn parse_expression(&mut self) -> (r: Expression)
        requires
            old(self).wf(),
        ensures
            final(self).wf(),
            ({
                let out = p_expr(old(self)@.toks, old(self)@.i, old(self)@.err, old(self)@.diags);
                r@ == out.e && final(self)@ == (PsV {
                    i: out.j,
                    err: out.err,
                    diags: out.diags,
                    ..old(self)@
                })
            }),
            final(self)@.i >= old(self)@.i,
        decreases self.tokens@.len() - self@.i, 2int,
    {
        if self.current_index >= self.tokens.len() {
            self.report("Expected an expression.", Location::empty());
            proof {
                lemma_value_null_view();
            }
            return Expression::VALUE(Value::NULL);
        }
        let t = self.next_token();
        match t {
            Token::LEFT_BRACKET(_) => {
                let es = self.parse_items(true);
                Expression::LIST(es)
            },
            Token::LEFT_CURLY(_) => {
                let es = self.parse_items(false);
                Expression::BLOCK(es)
            },
            Token::STRING(s, _) => Expression::STRING(s),
            Token::NUMBER(n, _) => Expression::NUMBER(n),
            Token::IDENTIFIER(nm, _) => {
                let mut tmp: Vec<Expression> = Vec::new();
                proof {
                    assert(exprs_view(tmp@) =~= Seq::<ExprV>::empty());
                }
                let e = self.parse_identifier(nm, &mut tmp, false);
                e
            },
            _ => {
                let loc = t.location().duplicate();
                self.report("Unexpected token.", loc);
                proof {
                    lemma_value_null_view();
                }
                Expression::VALUE(Value::NULL)
            },
        }
    }

    /// Parses a run of expressions ending at a closing parenthesis.
    pub fn parse_list(&mut self) -> (r: Vec<Expression>)
        requires
            old(self).wf(),
        ensures
            final(self).wf(),
            ({
                let out = p_items(
                    old(self)@.toks,
                    old(self)@.i,
                    Seq::empty(),
                    true,
                    old(self)@.err,
                    old(self)@.diags,
                );
                exprs_view(r@) == out.es && final(self)@ == (PsV {
                    i: out.j,
                    err: out.err,
                    diags: out.diags,
                    ..old(self)@
                })
            }),
        decreases self.tokens@.len() - self@.i, 4int,
    {
        self.parse_items(true)
    }

    /// Parses a run of expressions ending at a closing curly brace.
    pub fn parse_block(&mut self) -> (r: Vec<Expression>)
        requires
            old(self).wf(),
        ensures
            final(self).wf(),
            ({
                let out = p_items(
                    old(self)@.toks,
                    old(self)@.i,
                    Seq::empty(),
                    false,
                    old(self)@.err,
                    old(self)@.diags,
                );
                exprs_view(r@) == out.es && final(self)@ == (PsV {
                    i: out.j,
                    err: out.err,
                    diags: out.diags,
                    ..old(self)@
                })
            }),
        decreases self.tokens@.len() - self@.i, 4int,
    {
        self.parse_items(false)
    }

    /// Parses the whole token stream into one program expression; the
    /// result says whether any diagnostic was reported.
    pub fn parse(&mut self) -> (r: bool)
        requires
            old(self).wf(),
            old(self)@.i == 0,
            old(self)@.err == false,
            old(self)@.diags == Seq::<DiagV>::empty(),
        ensures
            final(self).wf(),
            ({
                let out = p_program(old(self)@.toks);
                final(self)@.code == out.e && final(self)@.err == out.err && final(self)@.diags
                    == out.diags && r == out.err
            }),
    {
        let mut es = self.parse_list();
        proof {
            lemma_exprs_view_index(es@);
        }
        if es.len() > 0 {
            let e = es.swap_remove(0);
            self.code = e;
        } else {
            proof {
                lemma_value_null_view();
            }
            self.code = Expression::VALUE(Value::NULL);
            self.report("Nothing to parse.", Location::empty());
        }
        self.had_error
    }
}

} // verus!
