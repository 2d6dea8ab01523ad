//! The host-facing interpreter object: it owns one environment and the
//! table of module sources standing in for the host's module reader.
//! Running a program tokenizes, parses and evaluates it; any source error
//! is returned to the host rather than ending the process. One statement
//! of an interactive session runs against a snapshot of the environment
//! and is committed only on success, so a failed statement leaves every
//! earlier binding untouched.

use vstd::prelude::*;
use vstd::string::StrSliceExecFns;
use vstd::string::StringExecFns;
use crate::chars::string_to_chars;
use crate::environment::{Environment, EnvV, env_define};
use crate::interpreter::{interpret, run_code, EvalError, EvalOut, EVAL_FUEL};
use crate::location::{Diagnostic, DiagV};
use crate::parser::{Parser, p_program};
use crate::tokenizer::{diags_view, scan_module, ScanV, Tokenizer, INCLUDE_DEPTH_LIMIT};
use crate::value::{NativeFunction, Value, ValueV};

verus! {

/// Why a run was refused.
#[derive(Debug)]
pub enum HierError {
    /// Tokenizing or parsing reported diagnostics; they are carried here.
    SOURCE(Vec<Diagnostic>),
    /// Evaluation of a well-formed program failed.
    EVAL(EvalError),
    /// A native function was registered with an arity below -1.
    BAD_ARITY,
}

/// The interpreter instance a host embeds.
#[derive(Debug)]
pub struct Hier {
    pub environment: Environment,
    pub module_sources: Vec<(String, String)>,
}

/// The mathematical image of a `Hier`.
#[verifier::ext_equal]
pub struct HierV {
    pub env: EnvV,
    pub sources: Seq<(Seq<char>, Seq<char>)>,
}

impl View for Hier {
    type V = HierV;

    open spec fn view(&self) -> HierV {
        HierV { env: self.environment@, sources: sources_view(self.module_sources@) }
    }
}

/// The views of the module-source table.
pub open spec fn sources_view(s: Seq<(String, String)>) -> Seq<(Seq<char>, Seq<char>)> {
    s.map_values(|p: (String, String)| (p.0@, p.1@))
}

/// Source text wrapped in a root call unless it already opens one.
pub open spec fn spec_wrap(code: Seq<char>) -> Seq<char> {
    if code.len() > 0 && code[0] == '(' {
        code
    } else {
        seq!['('] + code + seq![')']
    }
}

/// The state a scanning pass starts from.
pub open spec fn init_scan() -> ScanV {
    ScanV {
        i: 0,
        line: 1,
        offset: 0,
        tokens: Seq::empty(),
        diags: Seq::empty(),
        had_error: false,
        module_name: Seq::empty(),
        modules: Seq::empty(),
        parens: 0,
        squares: 0,
        curlies: 0,
    }
}

/// What running one source text does: a source failure with its
/// diagnostics, or an evaluation outcome.
pub enum RunSpec {
    SourceFailure(Seq<DiagV>),
    Evaluated(EvalOut),
}

/// The whole pipeline: wrap, tokenize as a module, parse, evaluate.
pub open spec fn spec_run(code: Seq<char>, table: Seq<(Seq<char>, Seq<char>)>, env: EnvV) -> RunSpec {
    let sc = scan_module(spec_wrap(code), table, init_scan(), INCLUDE_DEPTH_LIMIT as nat);
    if sc.had_error {
        RunSpec::SourceFailure(sc.diags)
    } else {
        let pr = p_program(sc.tokens);
        if pr.err {
            RunSpec::SourceFailure(pr.diags)
        } else {
            RunSpec::Evaluated(run_code(EnvV { code: pr.e, ..env }, EVAL_FUEL as nat))
        }
    }
}

/// Root parentheses are implicit: a source that does not open with `(`
/// runs exactly as the same source wrapped in one pair of parentheses.
pub proof fn lemma_implicit_root_parenthesis(
    code: Seq<char>,
    table: Seq<(Seq<char>, Seq<char>)>,
    env: EnvV,
)
    requires
        code.len() == 0 || code[0] != '(',
    ensures
        spec_run(code, table, env) == spec_run(seq!['('] + code + seq![')'], table, env),
{
    let w = seq!['('] + code + seq![')'];
    assert(w[0] == '(');
    assert(spec_wrap(code) =~= spec_wrap(w));
}

/// Runs the pipeline against one environment, with the given module
/// sources in place of the host's module reader.
fn run_in(env: &mut Environment, sources: &Vec<(String, String)>, code: String) -> (r: Result<
    Value,
    HierError,
>)
    requires
        old(env).wf(),
    ensures
        final(env).wf(),
        ({
            let out = spec_run(code@, sources_view(sources@), old(env)@);
            match out {
                RunSpec::SourceFailure(ds) => final(env)@ == old(env)@ && (match r {
                    Result::Err(HierError::SOURCE(d)) => diags_view(d@) == ds,
                    _ => false,
                }),
                RunSpec::Evaluated(o) => final(env)@ == o.env && (match (r, o.res) {
                    (Result::Ok(v), Result::Ok(vv)) => v@ == vv,
                    (Result::Err(HierError::EVAL(e)), Result::Err(ev)) => e@ == ev,
                    _ => false,
                }),
            }
        }),
{
    let starts = code.unicode_len() > 0 && code.as_str().get_char(0) == '(';
    let wrapped: String = if starts {
        code
    } else {
        let mut w = String::from_str("(");
        w.append(code.as_str());
        w.append(")");
        w
    };
    proof {
        reveal_strlit("(");
        reveal_strlit(")");
        assert(wrapped@ =~= spec_wrap(code@));
    }
    let mut table: Vec<(String, String)> = Vec::new();
    let mut k: usize = 0;
    while k < sources.len()
        invariant
            k <= sources@.len(),
            table@.len() == k,
            forall|j: int|
                #![trigger table@[j]]
                0 <= j < k ==> table@[j].0@ == sources@[j].0@ && table@[j].1@ == sources@[j].1@,
        decreases sources@.len() - k,
    {
        let p = sources[k].0.clone();
        let s = sources[k].1.clone();
        table.push((p, s));
        k = k + 1;
    }
    let mut tokenizer = Tokenizer::new(wrapped, table);
    proof {
        assert(tokenizer@.table =~= sources_view(sources@));
        assert(crate::tokenizer::scan_state(tokenizer@) =~= init_scan());
    }
    let err = tokenizer.tokenize_module();
    if err {
        return Result::Err(HierError::SOURCE(tokenizer.diagnostics));
    }
    let mut parser = Parser::new(tokenizer.tokens);
    let perr = parser.parse();
    if perr {
        return Result::Err(HierError::SOURCE(parser.diagnostics));
    }
    env.code = parser.code;
    proof {
        assert(env@ =~= (EnvV {
            code: p_program(
                scan_module(
                    spec_wrap(code@),
                    sources_view(sources@),
                    init_scan(),
                    INCLUDE_DEPTH_LIMIT as nat,
                ).tokens,
            ).e,
            ..old(env)@
        }));
    }
    match interpret(env) {
        Result::Ok(v) => Result::Ok(v),
        Result::Err(e) => Result::Err(HierError::EVAL(e)),
    }
}

impl Hier {
    /// The owned environment is well formed.
    pub open spec fn wf(&self) -> bool {
        self.environment.wf()
    }

    /// A fresh interpreter over the given module sources, with the
    /// default native library installed at global scope: `get`, `map`,
    /// `run`, `+` and `exit`.
    pub fn new(module_sources: Vec<(String, String)>) -> (r: Hier)
        ensures
            r.wf(),
            sources_view(r.module_sources@) == sources_view(module_sources@),
            ({
                let e0 = Environment::new_spec();
                r.environment@ == env_define(
                    env_define(
                        env_define(
                            env_define(
                                env_define(
                                    e0,
                                    0,
                                    "get"@,
                                    ValueV::NATIVE_FUNCTION(NativeFunction::GET, -1),
                                ),
                                0,
                                "map"@,
                                ValueV::NATIVE_FUNCTION(NativeFunction::MAP, 2),
                            ),
                            0,
                            "run"@,
                            ValueV::NATIVE_FUNCTION(NativeFunction::RUN, -1),
                        ),
                        0,
                        "+"@,
                        ValueV::NATIVE_FUNCTION(NativeFunction::ADD, -1),
                    ),
                    0,
                    "exit"@,
                    ValueV::NATIVE_FUNCTION(NativeFunction::EXIT, 0),
                )
            }),
    {
        let mut environment = Environment::new();
        proof {
            assert(environment@ =~= Environment::new_spec());
        }
        environment.define(
            0,
            string_to_chars("get"),
            Value::NATIVE_FUNCTION(NativeFunction::GET, -1),
        );
        environment.define(
            0,
            string_to_chars("map"),
            Value::NATIVE_FUNCTION(NativeFunction::MAP, 2),
        );
        environment.define(
            0,
            string_to_chars("run"),
            Value::NATIVE_FUNCTION(NativeFunction::RUN, -1),
        );
        environment.define(
            0,
            string_to_chars("+"),
            Value::NATIVE_FUNCTION(NativeFunction::ADD, -1),
        );
        environment.define(
            0,
            string_to_chars("exit"),
            Value::NATIVE_FUNCTION(NativeFunction::EXIT, 0),
        );
        Hier { environment, module_sources }
    }

    /// Tokenizes, parses and evaluates a whole program against this
    /// interpreter's environment. Source errors are returned with their
    /// diagnostics and leave the environment unchanged.
    pub fn run(&mut self, code: String) -> (r: Result<Value, HierError>)
        requires
            old(self).wf(),
        ensures
            final(self).wf(),
            final(self).module_sources@ == old(self).module_sources@,
            ({
                let out = spec_run(
                    code@,
                    sources_view(old(self).module_sources@),
                    old(self).environment@,
                );
                match out {
                    RunSpec::SourceFailure(ds) => final(self).environment@ == old(
                        self,
                    ).environment@ && (match r {
                        Result::Err(HierError::SOURCE(d)) => diags_view(d@) == ds,
                        _ => false,
                    }),
                    RunSpec::Evaluated(o) => final(self).environment@ == o.env && (match (
                        r,
                        o.res,
                    ) {
                        (Result::Ok(v), Result::Ok(vv)) => v@ == vv,
                        (Result::Err(HierError::EVAL(e)), Result::Err(ev)) => e@ == ev,
                        _ => false,
                    }),
                }
            }),
    {
        run_in(&mut self.environment, &self.module_sources, code)
    }

    /// Installs a native function at global scope. An arity below -1 is a
    /// configuration error, refused before any script runs.
    pub fn add_function(
        &mut self,
        name: String,
        arguments_count: i64,
        function: NativeFunction,
    ) -> (r: Result<(), HierError>)
        requires
            old(self).wf(),
        ensures
            final(self).wf(),
            r is Err <==> arguments_count < -1,
            r is Err ==> final(self)@ == old(self)@ && r == Result::Err::<(), HierError>(
                HierError::BAD_ARITY,
            ),
            r is Ok ==> final(self).environment@ == env_define(
                old(self).environment@,
                0,
                name@,
                ValueV::NATIVE_FUNCTION(function, arguments_count as int),
            ) && final(self).module_sources@ == old(self).module_sources@,
    {
        if arguments_count < -1 {
            return Result::Err(HierError::BAD_ARITY);
        }
        let n = string_to_chars(name.as_str());
        self.environment.define(0, n, Value::NATIVE_FUNCTION(function, arguments_count));
        Result::Ok(())
    }

    /// Installs a global binding.
    pub fn add_variable(&mut self, name: String, value: Value)
        requires
            old(self).wf(),
        ensures
            final(self).wf(),
            final(self).environment@ == env_define(old(self).environment@, 0, name@, value@),
            final(self).module_sources@ == old(self).module_sources@,
    {
        let n = string_to_chars(name.as_str());
        self.environment.define(0, n, value);
    }

    /// Runs one interactive statement inside a crash boundary: the
    /// pipeline runs against a snapshot of the environment, and only a
    /// successful evaluation replaces the live environment. A failed
    /// statement leaves every previously bound variable unchanged, and
    /// the loop can go on.
    pub fn repl_line(&mut self, line: String) -> (r: Result<Value, HierError>)
        requires
            old(self).wf(),
        ensures
            final(self).wf(),
            final(self).module_sources@ == old(self).module_sources@,
            r is Err ==> final(self)@ == old(self)@,
            ({
                let out = spec_run(
                    line@,
                    sources_view(old(self).module_sources@),
                    old(self).environment@,
                );
                match out {
                    RunSpec::SourceFailure(ds) => final(self)@ == old(self)@ && (match r {
                        Result::Err(HierError::SOURCE(d)) => diags_view(d@) == ds,
                        _ => false,
                    }),
                    RunSpec::Evaluated(o) => match o.res {
                        Result::Ok(vv) => final(self).environment@ == o.env && (match r {
                            Result::Ok(v) => v@ == vv,
                            _ => false,
                        }),
                        Result::Err(ev) => final(self)@ == old(self)@ && (match r {
                            Result::Err(HierError::EVAL(e)) => e@ == ev,
                            _ => false,
                        }),
                    },
                }
            }),
    {
        let mut scratch = self.environment.snapshot();
        match run_in(&mut scratch, &self.module_sources, line) {
            Result::Ok(v) => {
                self.environment = scratch;
                Result::Ok(v)
            },
            Result::Err(e) => Result::Err(e),
        }
    }
}

} // verus!
