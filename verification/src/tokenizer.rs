//! The tokenizer: turns raw source characters into a flat, location-tagged
//! token stream. Comments are skipped, module-include directives splice the
//! tokens of another module in place (each path at most once per pass), and
//! string and number literals are read whole. Errors are reported as
//! diagnostics and accumulate into a failure flag; scanning continues.
//!
//! The meaning of scanning is given by the spec function [`scan`], a
//! character-level definition over the same state the scanner keeps. Every
//! scanning method is proved to agree with it. Module inclusion is bounded
//! in depth; a source nested deeper reports an error instead of recursing
//! without bound.

use vstd::prelude::*;
use crate::chars::{chars_eq, copy_chars, string_to_chars};
use crate::location::{Diagnostic, DiagV, Location, LocV};
use crate::number::{Number, number_from_chars, NumberError, num_format, num_fits, num_of_chars};
use crate::token::{Token, TokV, toks_view};

verus! {

/// How many module inclusions may nest before scanning refuses to go
/// deeper.
pub const INCLUDE_DEPTH_LIMIT: u32 = 16;

pub open spec fn sat_inc64(x: u64) -> u64 {
    if x < u64::MAX {
        (x + 1) as u64
    } else {
        x
    }
}

pub open spec fn sat_inc_i64(x: i64) -> i64 {
    if x < i64::MAX {
        (x + 1) as i64
    } else {
        x
    }
}

pub open spec fn sat_dec_i64(x: i64) -> i64 {
    if x > i64::MIN {
        (x - 1) as i64
    } else {
        x
    }
}

/// The mutable state of one scanning pass.
#[verifier::ext_equal]
pub struct ScanV {
    pub i: int,
    pub line: u64,
    pub offset: u64,
    pub tokens: Seq<TokV>,
    pub diags: Seq<DiagV>,
    pub had_error: bool,
    pub module_name: Seq<char>,
    pub modules: Seq<Seq<char>>,
    pub parens: i64,
    pub squares: i64,
    pub curlies: i64,
}

/// Whether a pass scans a whole source or an interpolation span, which
/// stops at the first unmatched closing delimiter instead of reporting it.
pub enum ScanMode {
    Code,
    Interpolation,
}

/// The character under the cursor, a space once past the end.
pub open spec fn peek_at(code: Seq<char>, i: int) -> char {
    if 0 <= i < code.len() {
        code[i]
    } else {
        ' '
    }
}

/// The location diagnostics and tokens carry: current line, next column.
pub open spec fn mk_loc(st: ScanV) -> LocV {
    LocV { module: st.module_name, line: st.line as int, offset: sat_inc64(st.offset) as int }
}

pub open spec fn with_diag(st: ScanV, msg: Seq<char>) -> ScanV {
    ScanV {
        diags: st.diags.push(DiagV { message: msg, location: mk_loc(st) }),
        had_error: true,
        ..st
    }
}

/// Characters a number literal may contain.
pub open spec fn is_digit_class(c: char) -> bool {
    c == '-' || c == '.' || ('0' <= c && c <= '9')
}

/// Characters that end an identifier.
pub open spec fn is_ident_stop(c: char) -> bool {
    c == ' ' || c == ':' || c == '(' || c == ')' || c == '.' || c == '\n' || c == ']' || c == '['
}

/// Characters that end a number lexeme.
pub open spec fn is_num_stop(c: char) -> bool {
    c == ')' || c == ' ' || c == '\n' || c == ']'
}

/// The position just past a block comment opened before `i`: after the
/// first `*\` terminator, or the end of the text.
pub open spec fn comment_end(code: Seq<char>, i: int) -> int
    decreases code.len() - i,
{
    if i >= code.len() {
        i
    } else if code[i] == '*' && peek_at(code, i + 1) == '\\' {
        i + 2
    } else {
        comment_end(code, i + 1)
    }
}

pub proof fn lemma_comment_end_at(code: Seq<char>, i: int, j: int)
    requires
        0 <= i <= j <= code.len(),
        forall|k: int| i <= k < j ==> !(#[trigger] code[k] == '*' && peek_at(code, k + 1) == '\\'),
    ensures
        j == code.len() ==> comment_end(code, i) == j,
        j < code.len() && code[j] == '*' && peek_at(code, j + 1) == '\\' ==> comment_end(code, i)
            == j + 2,
    decreases j - i,
{
    if i < j {
        lemma_comment_end_at(code, i + 1, j);
    }
}

/// The line counter after the characters in `[a, b)` are consumed inside a
/// string literal.
pub open spec fn adv_line(code: Seq<char>, a: int, b: int, line: u64) -> u64
    decreases b - a,
{
    if a >= b {
        line
    } else if code[b - 1] == '\n' {
        sat_inc64(adv_line(code, a, b - 1, line))
    } else {
        adv_line(code, a, b - 1, line)
    }
}

/// The offset counter after the characters in `[a, b)` are consumed inside
/// a string literal: a newline resets it, anything else advances it.
pub open spec fn adv_offset(code: Seq<char>, a: int, b: int, offset: u64) -> u64
    decreases b - a,
{
    if a >= b {
        offset
    } else if code[b - 1] == '\n' {
        0
    } else {
        sat_inc64(adv_offset(code, a, b - 1, offset))
    }
}

/// The offset counter after characters consumed without line tracking
/// (comments, directive paths): each advances it.
pub open spec fn adv_offset_flat(offset: u64, count: int) -> u64
    decreases count,
{
    if count <= 0 {
        offset
    } else {
        sat_inc64(adv_offset_flat(offset, count - 1))
    }
}

/// A module table: each path with its source text.
pub open spec fn table_find(table: Seq<(Seq<char>, Seq<char>)>, k: int, path: Seq<char>) -> Option<
    Seq<char>,
>
    decreases table.len() - k,
{
    if k < 0 || k >= table.len() {
        Option::None
    } else if table[k].0 == path {
        Option::Some(table[k].1)
    } else {
        table_find(table, k + 1, path)
    }
}

/// Scanning one string literal, the cursor on the opening quote.
pub open spec fn string_step(code: Seq<char>, st: ScanV) -> ScanV {
    let a = st.i + 1;
    let j = quote_end(code, a);
    let content = code.subrange(a, j);
    let line1 = adv_line(code, a, j, st.line);
    let off1 = adv_offset(code, a, j, sat_inc64(st.offset));
    if j < code.len() {
        let st1 = ScanV { i: j + 1, line: line1, offset: sat_inc64(off1), ..st };
        ScanV { tokens: st1.tokens.push(TokV::STRING(content, mk_loc(st1))), ..st1 }
    } else {
        let st1 = ScanV { i: j, line: line1, offset: off1, ..st };
        let st2 = with_diag(st1, "Unterminated string."@);
        ScanV { tokens: st2.tokens.push(TokV::STRING(content, mk_loc(st2))), ..st2 }
    }
}

/// Scanning one number lexeme, the cursor on its first character. A lone
/// minus is the subtraction identifier; a malformed or oversized literal
/// is a diagnostic and no token.
pub open spec fn number_step(code: Seq<char>, st: ScanV) -> ScanV {
    let j = num_lex_end(code, st.i);
    let lex = code.subrange(st.i, j);
    let st1 = ScanV { i: j, offset: adv_offset_flat(st.offset, j - st.i), ..st };
    if lex == seq!['-'] {
        ScanV { tokens: st1.tokens.push(TokV::IDENTIFIER(lex, mk_loc(st1))), ..st1 }
    } else if num_format(lex) && num_fits(lex) {
        ScanV { tokens: st1.tokens.push(TokV::NUMBER(num_of_chars(lex), mk_loc(st1))), ..st1 }
    } else if !num_format(lex) {
        with_diag(st1, "Malformed number."@)
    } else {
        with_diag(st1, "Number too large."@)
    }
}

/// Scanning one identifier, the cursor on its first character.
pub open spec fn ident_step(code: Seq<char>, st: ScanV) -> ScanV {
    let j = ident_lex_end(code, st.i);
    let lex = code.subrange(st.i, j);
    let st1 = ScanV { i: j, offset: adv_offset_flat(st.offset, j - st.i), ..st };
    ScanV { tokens: st1.tokens.push(TokV::IDENTIFIER(lex, mk_loc(st1))), ..st1 }
}

/// Skipping a block comment, the cursor just past the opening `\*`.
pub open spec fn comment_step(code: Seq<char>, st: ScanV) -> ScanV {
    let j = comment_end(code, st.i);
    ScanV { i: j, offset: adv_offset_flat(st.offset, j - st.i), ..st }
}

/// The termination measure of a scanning pass: how much text is left.
pub open spec fn rem(code: Seq<char>, st: ScanV) -> int {
    if st.i <= code.len() {
        code.len() - st.i + 1
    } else {
        0
    }
}

/// Guarantees forward movement of the cursor, so that scanning always
/// terminates; every step proved about the scanner moves on its own.
pub open spec fn bump(prev: ScanV, next: ScanV) -> ScanV {
    if next.i > prev.i {
        next
    } else {
        ScanV { i: prev.i + 1, ..next }
    }
}

/// A `#` directive, the cursor on the `#`: either `#<path>`, splicing the
/// tokens of that module (only the first time; unknown paths and exhausted
/// depth are diagnostics), or `#name`, renaming the current module.
pub open spec fn process_step(
    code: Seq<char>,
    table: Seq<(Seq<char>, Seq<char>)>,
    st: ScanV,
    depth: nat,
) -> ScanV
    decreases depth, rem(code, st), 0int,
{
    let st1 = ScanV { i: st.i + 1, offset: sat_inc64(st.offset), ..st };
    if peek_at(code, st1.i) == '<' {
        let st2 = ScanV { i: st1.i + 1, offset: sat_inc64(st1.offset), ..st1 };
        let j = path_lex_end(code, st2.i);
        let path = code.subrange(st2.i, j);
        let st3 = ScanV { i: j, offset: adv_offset_flat(st2.offset, j - st2.i), ..st2 };
        let st4 = if j < code.len() {
            ScanV { i: j + 1, offset: sat_inc64(st3.offset), ..st3 }
        } else {
            st3
        };
        if st4.modules.contains(path) {
            st4
        } else if depth == 0 {
            with_diag(st4, "Module inclusion is nested too deeply."@)
        } else {
            match table_find(table, 0, path) {
                Option::None => with_diag(st4, "Unknown module."@),
                Option::Some(src) => {
                    let sub0 = ScanV {
                        i: 0,
                        line: 1,
                        offset: 0,
                        tokens: Seq::empty(),
                        diags: Seq::empty(),
                        had_error: false,
                        module_name: path,
                        modules: st4.modules.push(path),
                        parens: 0,
                        squares: 0,
                        curlies: 0,
                    };
                    let sub = scan(src, table, ScanMode::Code, sub0, (depth - 1) as nat);
                    ScanV {
                        tokens: st4.tokens + sub.tokens,
                        diags: st4.diags + sub.diags,
                        had_error: st4.had_error || sub.had_error,
                        modules: sub.modules,
                        ..st4
                    }
                },
            }
        }
    } else {
        let j = name_lex_end(code, st1.i);
        ScanV {
            i: j,
            offset: adv_offset_flat(st1.offset, j - st1.i),
            module_name: code.subrange(st1.i, j),
            ..st1
        }
    }
}

/// The delimiter checks applied once the end of the source is reached.
pub open spec fn end_step(st: ScanV) -> ScanV {
    if st.curlies != 0 {
        with_diag(st, "Missing }"@)
    } else if st.parens != 0 {
        with_diag(st, "Missing )"@)
    } else if st.squares != 0 {
        with_diag(st, "Missing ]"@)
    } else {
        st
    }
}

/// One full scanning pass from state `st`: the meaning of tokenizing.
pub open spec fn scan(
    code: Seq<char>,
    table: Seq<(Seq<char>, Seq<char>)>,
    mode: ScanMode,
    st: ScanV,
    depth: nat,
) -> ScanV
    decreases depth, rem(code, st), 1int,
{
    if st.i >= code.len() {
        match mode {
            ScanMode::Code => end_step(st),
            ScanMode::Interpolation => st,
        }
    } else {
        let c = code[st.i];
        if c == '#' && peek_at(code, st.i + 1) != ' ' {
            scan(code, table, mode, bump(st, process_step(code, table, st, depth)), depth)
        } else if c == '\\' && peek_at(code, st.i + 1) == '*' {
            let st1 = ScanV { i: st.i + 2, offset: sat_inc64(sat_inc64(st.offset)), ..st };
            scan(code, table, mode, bump(st, comment_step(code, st1)), depth)
        } else if c == '\n' {
            let st1 = ScanV { i: st.i + 1, offset: sat_inc64(st.offset), ..st };
            let st2 = if peek_at(code, st1.i) == '#' && peek_at(code, st1.i + 1) != ' ' {
                process_step(code, table, st1, depth)
            } else {
                st1
            };
            let st3 = ScanV { line: sat_inc64(st2.line), offset: 0, ..st2 };
            scan(code, table, mode, bump(st, st3), depth)
        } else if c == ' ' || c == '\t' {
            let st1 = ScanV { i: st.i + 1, offset: sat_inc64(st.offset), ..st };
            scan(code, table, mode, st1, depth)
        } else if c == '.' {
            let st1 = ScanV { tokens: st.tokens.push(TokV::DOT(mk_loc(st))), ..st };
            let st2 = ScanV { i: st1.i + 1, offset: sat_inc64(st1.offset), ..st1 };
            scan(code, table, mode, st2, depth)
        } else if c == ':' {
            let st1 = ScanV { tokens: st.tokens.push(TokV::COLON(mk_loc(st))), ..st };
            let st2 = ScanV { i: st1.i + 1, offset: sat_inc64(st1.offset), ..st1 };
            scan(code, table, mode, st2, depth)
        } else if c == '(' {
            let st1 = ScanV {
                tokens: st.tokens.push(TokV::LEFT_BRACKET(mk_loc(st))),
                parens: sat_inc_i64(st.parens),
                ..st
            };
            let st2 = ScanV { i: st1.i + 1, offset: sat_inc64(st1.offset), ..st1 };
            scan(code, table, mode, st2, depth)
        } else if c == ')' {
            let st1 = ScanV {
                tokens: st.tokens.push(TokV::RIGHT_BRACKET(mk_loc(st))),
                parens: sat_dec_i64(st.parens),
                ..st
            };
            if st1.parens == -1 {
                match mode {
                    ScanMode::Interpolation => st1,
                    ScanMode::Code => {
                        let st2 = with_diag(st1, "Unexpected )."@);
                        let st3 = ScanV { i: st2.i + 1, offset: sat_inc64(st2.offset), ..st2 };
                        scan(code, table, mode, st3, depth)
                    },
                }
            } else {
                let st2 = ScanV { i: st1.i + 1, offset: sat_inc64(st1.offset), ..st1 };
                scan(code, table, mode, st2, depth)
            }
        } else if c == '[' {
            let st1 = ScanV {
                tokens: st.tokens.push(TokV::LEFT_SQUARE(mk_loc(st))),
                squares: sat_inc_i64(st.squares),
                ..st
            };
            let st2 = ScanV { i: st1.i + 1, offset: sat_inc64(st1.offset), ..st1 };
            scan(code, table, mode, st2, depth)
        } else if c == ']' {
            let st1 = ScanV {
                tokens: st.tokens.push(TokV::RIGHT_SQUARE(mk_loc(st))),
                squares: sat_dec_i64(st.squares),
                ..st
            };
            if st1.squares == -1 {
                match mode {
                    ScanMode::Interpolation => st1,
                    ScanMode::Code => {
                        let st2 = with_diag(st1, "Unexpected ]."@);
                        let st3 = ScanV { i: st2.i + 1, offset: sat_inc64(st2.offset), ..st2 };
                        scan(code, table, mode, st3, depth)
                    },
                }
            } else {
                let st2 = ScanV { i: st1.i + 1, offset: sat_inc64(st1.offset), ..st1 };
                scan(code, table, mode, st2, depth)
            }
        } else if c == '{' {
            let st1 = ScanV {
                tokens: st.tokens.push(TokV::LEFT_CURLY(mk_loc(st))),
                curlies: sat_inc_i64(st.curlies),
                ..st
            };
            let st2 = ScanV { i: st1.i + 1, offset: sat_inc64(st1.offset), ..st1 };
            scan(code, table, mode, st2, depth)
        } else if c == '}' {
            let st1 = ScanV {
                tokens: st.tokens.push(TokV::RIGHT_CURLY(mk_loc(st))),
                curlies: sat_dec_i64(st.curlies),
                ..st
            };
            if st1.curlies == -1 {
                match mode {
                    ScanMode::Interpolation => st1,
                    ScanMode::Code => {
                        let st2 = with_diag(st1, "Unexpected }."@);
                        let st3 = ScanV { i: st2.i + 1, offset: sat_inc64(st2.offset), ..st2 };
                        scan(code, table, mode, st3, depth)
                    },
                }
            } else {
                let st2 = ScanV { i: st1.i + 1, offset: sat_inc64(st1.offset), ..st1 };
                scan(code, table, mode, st2, depth)
            }
        } else if c == '"' {
            scan(code, table, mode, bump(st, string_step(code, st)), depth)
        } else if is_digit_class(c) {
            scan(code, table, mode, bump(st, number_step(code, st)), depth)
        } else {
            scan(code, table, mode, bump(st, ident_step(code, st)), depth)
        }
    }
}

/// A whole-module pass: the token stream wrapped in one block.
pub open spec fn scan_module(
    code: Seq<char>,
    table: Seq<(Seq<char>, Seq<char>)>,
    st: ScanV,
    depth: nat,
) -> ScanV {
    let st1 = ScanV { tokens: st.tokens.push(TokV::LEFT_CURLY(mk_loc(st))), ..st };
    let st2 = scan(
        code,
        table,
        ScanMode::Code,
        ScanV { parens: 0, squares: 0, curlies: 0, ..st1 },
        depth,
    );
    ScanV { tokens: st2.tokens.push(TokV::RIGHT_CURLY(mk_loc(st2))), ..st2 }
}

/// The first position at or after `i` holding a quote, or the end.
pub open spec fn quote_end(code: Seq<char>, i: int) -> int
    decreases code.len() - i,
{
    if i >= code.len() || code[i] == '"' {
        i
    } else {
        quote_end(code, i + 1)
    }
}

pub proof fn lemma_quote_end_at(code: Seq<char>, i: int, j: int)
    requires
        0 <= i <= j <= code.len(),
        forall|k: int| i <= k < j ==> #[trigger] code[k] != '"',
        j == code.len() || code[j] == '"',
    ensures
        quote_end(code, i) == j,
    decreases j - i,
{
    if i < j {
        lemma_quote_end_at(code, i + 1, j);
    }
}

/// The first position at or after `i` that ends a number lexeme.
pub open spec fn num_lex_end(code: Seq<char>, i: int) -> int
    decreases code.len() - i,
{
    if i >= code.len() || is_num_stop(code[i]) {
        i
    } else {
        num_lex_end(code, i + 1)
    }
}

pub proof fn lemma_num_lex_end_at(code: Seq<char>, i: int, j: int)
    requires
        0 <= i <= j <= code.len(),
        forall|k: int| i <= k < j ==> !is_num_stop(#[trigger] code[k]),
        j == code.len() || is_num_stop(code[j]),
    ensures
        num_lex_end(code, i) == j,
    decreases j - i,
{
    if i < j {
        lemma_num_lex_end_at(code, i + 1, j);
    }
}

/// The first position at or after `i` that ends an identifier.
pub open spec fn ident_lex_end(code: Seq<char>, i: int) -> int
    decreases code.len() - i,
{
    if i >= code.len() || is_ident_stop(code[i]) {
        i
    } else {
        ident_lex_end(code, i + 1)
    }
}

pub proof fn lemma_ident_lex_end_at(code: Seq<char>, i: int, j: int)
    requires
        0 <= i <= j <= code.len(),
        forall|k: int| i <= k < j ==> !is_ident_stop(#[trigger] code[k]),
        j == code.len() || is_ident_stop(code[j]),
    ensures
        ident_lex_end(code, i) == j,
    decreases j - i,
{
    if i < j {
        lemma_ident_lex_end_at(code, i + 1, j);
    }
}

/// The first position at or after `i` holding `>`, or the end.
pub open spec fn path_lex_end(code: Seq<char>, i: int) -> int
    decreases code.len() - i,
{
    if i >= code.len() || code[i] == '>' {
        i
    } else {
        path_lex_end(code, i + 1)
    }
}

pub proof fn lemma_path_lex_end_at(code: Seq<char>, i: int, j: int)
    requires
        0 <= i <= j <= code.len(),
        forall|k: int| i <= k < j ==> #[trigger] code[k] != '>',
        j == code.len() || code[j] == '>',
    ensures
        path_lex_end(code, i) == j,
    decreases j - i,
{
    if i < j {
        lemma_path_lex_end_at(code, i + 1, j);
    }
}

/// The first position at or after `i` holding a newline, or the end.
pub open spec fn name_lex_end(code: Seq<char>, i: int) -> int
    decreases code.len() - i,
{
    if i >= code.len() || code[i] == '\n' {
        i
    } else {
        name_lex_end(code, i + 1)
    }
}

pub proof fn lemma_name_lex_end_at(code: Seq<char>, i: int, j: int)
    requires
        0 <= i <= j <= code.len(),
        forall|k: int| i <= k < j ==> #[trigger] code[k] != '\n',
        j == code.len() || code[j] == '\n',
    ensures
        name_lex_end(code, i) == j,
    decreases j - i,
{
    if i < j {
        lemma_name_lex_end_at(code, i + 1, j);
    }
}

/// Module inclusion is idempotent within one pass: a `#<path>` directive
/// whose path was already included moves the cursor past the directive
/// and changes nothing else; no tokens, diagnostics or modules are added.
pub proof fn lemma_module_inclusion_idempotent(
    code: Seq<char>,
    table: Seq<(Seq<char>, Seq<char>)>,
    st: ScanV,
    depth: nat,
)
    requires
        peek_at(code, st.i + 1) == '<',
        st.modules.contains(code.subrange(st.i + 2, path_lex_end(code, st.i + 2))),
    ensures
        ({
            let out = process_step(code, table, st, depth);
            &&& out.tokens == st.tokens
            &&& out.diags == st.diags
            &&& out.had_error == st.had_error
            &&& out.modules == st.modules
            &&& out.module_name == st.module_name
        }),
{
}

/// The views of a module-path list.
pub open spec fn paths_view(s: Seq<Vec<char>>) -> Seq<Seq<char>> {
    s.map_values(|m: Vec<char>| m@)
}

/// The views of a diagnostics list.
pub open spec fn diags_view(s: Seq<Diagnostic>) -> Seq<DiagV> {
    s.map_values(|d: Diagnostic| d@)
}

/// The views of a module table.
pub open spec fn table_view(s: Seq<(Vec<char>, Vec<char>)>) -> Seq<(Seq<char>, Seq<char>)> {
    s.map_values(|p: (Vec<char>, Vec<char>)| (p.0@, p.1@))
}

/// A structural copy of a token, view for view.
pub fn duplicate_token(t: &Token) -> (r: Token)
    ensures
        r@ == t@,
{
    match t {
        Token::LEFT_BRACKET(l) => Token::LEFT_BRACKET(l.duplicate()),
        Token::RIGHT_BRACKET(l) => Token::RIGHT_BRACKET(l.duplicate()),
        Token::LEFT_SQUARE(l) => Token::LEFT_SQUARE(l.duplicate()),
        Token::RIGHT_SQUARE(l) => Token::RIGHT_SQUARE(l.duplicate()),
        Token::LEFT_CURLY(l) => Token::LEFT_CURLY(l.duplicate()),
        Token::RIGHT_CURLY(l) => Token::RIGHT_CURLY(l.duplicate()),
        Token::DOT(l) => Token::DOT(l.duplicate()),
        Token::COLON(l) => Token::COLON(l.duplicate()),
        Token::STRING(s, l) => Token::STRING(copy_chars(s), l.duplicate()),
        Token::NUMBER(n, l) => Token::NUMBER(*n, l.duplicate()),
        Token::IDENTIFIER(s, l) => Token::IDENTIFIER(copy_chars(s), l.duplicate()),
    }
}

/// Appends view-equal copies of all tokens of `src` to `dst`.
fn append_tokens(dst: &mut Vec<Token>, src: &Vec<Token>)
    ensures
        toks_view(final(dst)@) == toks_view(old(dst)@) + toks_view(src@),
{
    let mut k: usize = 0;
    while k < src.len()
        invariant
            k <= src@.len(),
            dst@.len() == old(dst)@.len() + k,
            forall|j: int|
                #![trigger dst@[j]]
                0 <= j < old(dst)@.len() ==> dst@[j]@ == old(dst)@[j]@,
            forall|j: int|
                #![trigger dst@[j]]
                old(dst)@.len() <= j < old(dst)@.len() + k ==> dst@[j]@ == src@[j - old(
                    dst,
                )@.len()]@,
        decreases src@.len() - k,
    {
        let t = duplicate_token(&src[k]);
        dst.push(t);
        k = k + 1;
    }
    proof {
        assert(toks_view(dst@) =~= toks_view(old(dst)@) + toks_view(src@));
    }
}

/// Appends view-equal copies of all diagnostics of `src` to `dst`.
fn append_diags(dst: &mut Vec<Diagnostic>, src: &Vec<Diagnostic>)
    ensures
        diags_view(final(dst)@) == diags_view(old(dst)@) + diags_view(src@),
{
    let mut k: usize = 0;
    while k < src.len()
        invariant
            k <= src@.len(),
            dst@.len() == old(dst)@.len() + k,
            forall|j: int|
                #![trigger dst@[j]]
                0 <= j < old(dst)@.len() ==> dst@[j]@ == old(dst)@[j]@,
            forall|j: int|
                #![trigger dst@[j]]
                old(dst)@.len() <= j < old(dst)@.len() + k ==> dst@[j]@ == src@[j - old(
                    dst,
                )@.len()]@,
        decreases src@.len() - k,
    {
        let message = copy_chars(&src[k].message);
        let location = src[k].location.duplicate();
        dst.push(Diagnostic { message, location });
        k = k + 1;
    }
    proof {
        assert(diags_view(dst@) =~= diags_view(old(dst)@) + diags_view(src@));
    }
}

/// A view-equal copy of an included-path list.
fn copy_paths(ps: &Vec<Vec<char>>) -> (r: Vec<Vec<char>>)
    ensures
        paths_view(r@) == paths_view(ps@),
{
    let mut r: Vec<Vec<char>> = Vec::new();
    let mut k: usize = 0;
    while k < ps.len()
        invariant
            k <= ps@.len(),
            r@.len() == k,
            forall|j: int| #![trigger r@[j]] 0 <= j < k ==> r@[j]@ == ps@[j]@,
        decreases ps@.len() - k,
    {
        let p = copy_chars(&ps[k]);
        r.push(p);
        k = k + 1;
    }
    proof {
        assert(paths_view(r@) =~= paths_view(ps@));
    }
    r
}

/// A view-equal copy of a module table.
fn copy_table(tb: &Vec<(Vec<char>, Vec<char>)>) -> (r: Vec<(Vec<char>, Vec<char>)>)
    ensures
        table_view(r@) == table_view(tb@),
{
    let mut r: Vec<(Vec<char>, Vec<char>)> = Vec::new();
    let mut k: usize = 0;
    while k < tb.len()
        invariant
            k <= tb@.len(),
            r@.len() == k,
            forall|j: int|
                #![trigger r@[j]]
                0 <= j < k ==> r@[j].0@ == tb@[j].0@ && r@[j].1@ == tb@[j].1@,
        decreases tb@.len() - k,
    {
        let p = copy_chars(&tb[k].0);
        let s = copy_chars(&tb[k].1);
        r.push((p, s));
        k = k + 1;
    }
    proof {
        assert(table_view(r@) =~= table_view(tb@));
    }
    r
}

/// The scanner. It owns the source being scanned, the cursor and location
/// counters, the tokens and diagnostics produced so far, the list of
/// modules already included, and the table of module sources standing in
/// for the host's module reader.
#[derive(Debug)]
pub struct Tokenizer {
    pub code: Vec<char>,
    pub current_index: usize,
    pub current_line: u64,
    pub current_offset: u64,
    pub tokens: Vec<Token>,
    pub had_error: bool,
    pub modules: Vec<Vec<char>>,
    pub module_name: Vec<char>,
    pub diagnostics: Vec<Diagnostic>,
    pub table: Vec<(Vec<char>, Vec<char>)>,
    pub include_depth: u32,
    pub parens: i64,
    pub squares: i64,
    pub curlies: i64,
}

/// The mathematical image of a `Tokenizer`.
#[verifier::ext_equal]
pub struct TkV {
    pub code: Seq<char>,
    pub i: int,
    pub line: u64,
    pub offset: u64,
    pub tokens: Seq<TokV>,
    pub diags: Seq<DiagV>,
    pub had_error: bool,
    pub modules: Seq<Seq<char>>,
    pub module_name: Seq<char>,
    pub table: Seq<(Seq<char>, Seq<char>)>,
    pub depth: nat,
    pub parens: i64,
    pub squares: i64,
    pub curlies: i64,
}

impl View for Tokenizer {
    type V = TkV;

    open spec fn view(&self) -> TkV {
        TkV {
            code: self.code@,
            i: self.current_index as int,
            line: self.current_line,
            offset: self.current_offset,
            tokens: toks_view(self.tokens@),
            diags: diags_view(self.diagnostics@),
            had_error: self.had_error,
            modules: paths_view(self.modules@),
            module_name: self.module_name@,
            table: table_view(self.table@),
            depth: self.include_depth as nat,
            parens: self.parens,
            squares: self.squares,
            curlies: self.curlies,
        }
    }
}

/// The scanning state a tokenizer is in.
pub open spec fn scan_state(t: TkV) -> ScanV {
    ScanV {
        i: t.i,
        line: t.line,
        offset: t.offset,
        tokens: t.tokens,
        diags: t.diags,
        had_error: t.had_error,
        module_name: t.module_name,
        modules: t.modules,
        parens: t.parens,
        squares: t.squares,
        curlies: t.curlies,
    }
}

/// A tokenizer after a scanning step: the state replaced, the source, the
/// table and the depth budget untouched.
pub open spec fn after_step(t: TkV, out: ScanV) -> TkV {
    TkV {
        i: out.i,
        line: out.line,
        offset: out.offset,
        tokens: out.tokens,
        diags: out.diags,
        had_error: out.had_error,
        module_name: out.module_name,
        modules: out.modules,
        parens: out.parens,
        squares: out.squares,
        curlies: out.curlies,
        ..t
    }
}

impl Tokenizer {
    /// The cursor never leaves the source text.
    pub open spec fn wf(&self) -> bool {
        self.current_index <= self.code@.len()
    }

    /// A fresh scanner over one source, with the module sources the host
    /// provides in place of its module-reading callback.
    pub fn new(code: String, module_sources: Vec<(String, String)>) -> (r: Tokenizer)
        ensures
            r.wf(),
            r@.code == code@,
            r@.i == 0,
            r@.line == 1,
            r@.offset == 0,
            r@.tokens == Seq::<TokV>::empty(),
            r@.diags == Seq::<DiagV>::empty(),
            r@.had_error == false,
            r@.modules == Seq::<Seq<char>>::empty(),
            r@.module_name == Seq::<char>::empty(),
            r@.table.len() == module_sources@.len(),
            forall|k: int|
                0 <= k < module_sources@.len() ==> #[trigger] r@.table[k]
                    == (module_sources@[k].0@, module_sources@[k].1@),
            r@.depth == INCLUDE_DEPTH_LIMIT,
            r@.parens == 0 && r@.squares == 0 && r@.curlies == 0,
    {
        let chars = string_to_chars(code.as_str());
        let mut table: Vec<(Vec<char>, Vec<char>)> = Vec::new();
        let mut k: usize = 0;
        while k < module_sources.len()
            invariant
                k <= module_sources@.len(),
                table@.len() == k,
                forall|j: int|
                    0 <= j < k ==> #[trigger] table@[j].0@ == module_sources@[j].0@
                        && table@[j].1@ == module_sources@[j].1@,
            decreases module_sources@.len() - k,
        {
            let p = string_to_chars(module_sources[k].0.as_str());
            let s = string_to_chars(module_sources[k].1.as_str());
            table.push((p, s));
            k = k + 1;
        }
        let r = Tokenizer {
            code: chars,
            current_index: 0,
            current_line: 1,
            current_offset: 0,
            tokens: Vec::new(),
            had_error: false,
            modules: Vec::new(),
            module_name: Vec::new(),
            diagnostics: Vec::new(),
            table,
            include_depth: INCLUDE_DEPTH_LIMIT,
            parens: 0,
            squares: 0,
            curlies: 0,
        };
        proof {
            assert(r@.tokens =~= Seq::<TokV>::empty());
            assert(r@.diags =~= Seq::<DiagV>::empty());
            assert(r@.modules =~= Seq::<Seq<char>>::empty());
            assert(r@.table.len() == module_sources@.len());
        }
        r
    }

    /// The character under the cursor; a space at the end of input.
    pub fn peek(&self) -> (c: char)
        ensures
            c == peek_at(self@.code, self@.i),
    {
        if self.current_index < self.code.len() {
            self.code[self.current_index]
        } else {
            ' '
        }
    }

    /// The character after the cursor; a space at the end of input.
    pub fn peek_next(&self) -> (c: char)
        ensures
            c == peek_at(self@.code, self@.i + 1),
    {
        if self.current_index < self.code.len() {
            let j = self.current_index + 1;
            if j < self.code.len() {
                self.code[j]
            } else {
                ' '
            }
        } else {
            ' '
        }
    }

    /// Takes the character under the cursor and advances; at the end of
    /// input it yields a space and leaves the state unchanged.
    pub fn consume(&mut self) -> (c: char)
        requires
            old(self).wf(),
        ensures
            final(self).wf(),
            old(self)@.i < old(self)@.code.len() ==> c == old(self)@.code[old(self)@.i]
                && final(self)@ == (TkV {
                i: old(self)@.i + 1,
                offset: sat_inc64(old(self)@.offset),
                ..old(self)@
            }),
            old(self)@.i >= old(self)@.code.len() ==> c == ' ' && final(self)@ == old(self)@,
    {
        if self.current_index < self.code.len() {
            let c = self.code[self.current_index];
            self.current_index = self.current_index + 1;
            if self.current_offset < u64::MAX {
                self.current_offset = self.current_offset + 1;
            }
            c
        } else {
            ' '
        }
    }

    /// The location a token or diagnostic created now would carry.
    pub fn make_location(&self) -> (r: Location)
        ensures
            r@ == mk_loc(scan_state(self@)),
    {
        let offset = if self.current_offset < u64::MAX {
            self.current_offset + 1
        } else {
            self.current_offset
        };
        Location::new(copy_chars(&self.module_name), self.current_line, offset)
    }

    /// Whether a character may appear in a number literal.
    pub fn is_a_digit(digit: char) -> (r: bool)
        ensures
            r == is_digit_class(digit),
    {
        digit == '-' || digit == '.' || ('0' <= digit && digit <= '9')
    }

    /// Reads one string literal; the cursor sits on the opening quote.
    /// Escapes are left in the token text and resolved at evaluation.
    fn string(&mut self)
        requires
            old(self).wf(),
            old(self)@.i < old(self)@.code.len(),
        ensures
            final(self).wf(),
            final(self)@ == after_step(
                old(self)@,
                string_step(old(self)@.code, scan_state(old(self)@)),
            ),
            final(self)@.i > old(self)@.i,
    {
        let ghost code = self@.code;
        let ghost st0 = scan_state(self@);
        let _ = self.consume();
        let ghost a = st0.i + 1;
        let mut string: Vec<char> = Vec::new();
        proof {
            assert(string@ =~= code.subrange(a, self@.i));
        }
        while self.current_index < self.code.len() && self.code[self.current_index] != '"'
            invariant
                self.wf(),
                self@.code == code,
                self@ == (TkV {
                    i: self@.i,
                    line: self@.line,
                    offset: self@.offset,
                    ..old(self)@
                }),
                0 <= a <= self@.i <= code.len(),
                forall|k: int| a <= k < self@.i ==> #[trigger] code[k] != '"',
                string@ == code.subrange(a, self@.i),
                self@.line == adv_line(code, a, self@.i, st0.line),
                self@.offset == adv_offset(code, a, self@.i, sat_inc64(st0.offset)),
            decreases code.len() - self@.i,
        {
            let ghost ipre = self@.i;
            let c = self.consume();
            if c == '\n' {
                if self.current_line < u64::MAX {
                    self.current_line = self.current_line + 1;
                }
                self.current_offset = 0;
            }
            string.push(c);
            proof {
                assert(string@ =~= code.subrange(a, self@.i));
            }
        }
        let ghost j = self@.i;
        proof {
            lemma_quote_end_at(code, a, j);
        }
        if self.current_index < self.code.len() {
            let _ = self.consume();
            let loc = self.make_location();
            self.tokens.push(Token::STRING(string, loc));
            proof {
                assert(toks_view(self.tokens@) =~= string_step(code, st0).tokens);
                assert(final(self)@ =~= after_step(old(self)@, string_step(code, st0)));
            }
        } else {
            self.report("Unterminated string.");
            let loc = self.make_location();
            self.tokens.push(Token::STRING(string, loc));
            proof {
                assert(toks_view(self.tokens@) =~= string_step(code, st0).tokens);
                assert(diags_view(self.diagnostics@) =~= string_step(code, st0).diags);
                assert(final(self)@ =~= after_step(old(self)@, string_step(code, st0)));
            }
        }
    }

    /// Reads one number lexeme; the cursor sits on its first character. A
    /// lone minus becomes the subtraction identifier; a malformed or
    /// oversized literal is a diagnostic and yields no token.
    fn number(&mut self)
        requires
            old(self).wf(),
            old(self)@.i < old(self)@.code.len(),
            !is_num_stop(old(self)@.code[old(self)@.i]),
        ensures
            final(self).wf(),
            final(self)@ == after_step(
                old(self)@,
                number_step(old(self)@.code, scan_state(old(self)@)),
            ),
            final(self)@.i > old(self)@.i,
    {
        let ghost code = self@.code;
        let ghost st0 = scan_state(self@);
        let mut lexeme: Vec<char> = Vec::new();
        proof {
            assert(lexeme@ =~= code.subrange(st0.i, self@.i));
        }
        while self.current_index < self.code.len() && self.code[self.current_index] != ')'
            && self.code[self.current_index] != ' ' && self.code[self.current_index] != '\n'
            && self.code[self.current_index] != ']'
            invariant
                self.wf(),
                self@.code == code,
                self@ == (TkV { i: self@.i, offset: self@.offset, ..old(self)@ }),
                0 <= st0.i <= self@.i <= code.len(),
                forall|k: int| st0.i <= k < self@.i ==> !is_num_stop(#[trigger] code[k]),
                lexeme@ == code.subrange(st0.i, self@.i),
                self@.offset == adv_offset_flat(st0.offset, self@.i - st0.i),
            decreases code.len() - self@.i,
        {
            let c = self.consume();
            lexeme.push(c);
            proof {
                assert(lexeme@ =~= code.subrange(st0.i, self@.i));
            }
        }
        let ghost j = self@.i;
        proof {
            lemma_num_lex_end_at(code, st0.i, j);
            assert(j > st0.i);
        }
        if lexeme.len() == 1 && lexeme[0] == '-' {
            proof {
                assert(lexeme@ =~= seq!['-']);
            }
            let loc = self.make_location();
            self.tokens.push(Token::IDENTIFIER(lexeme, loc));
            proof {
                assert(toks_view(self.tokens@) =~= number_step(code, st0).tokens);
                assert(final(self)@ =~= after_step(old(self)@, number_step(code, st0)));
            }
        } else {
            proof {
                assert(lexeme@ != seq!['-']) by {
                    if lexeme@ == seq!['-'] {
                        assert(lexeme@.len() == 1);
                        assert(lexeme@[0] == '-');
                    }
                }
            }
            match number_from_chars(&lexeme) {
                Result::Ok(n) => {
                    let loc = self.make_location();
                    self.tokens.push(Token::NUMBER(n, loc));
                    proof {
                        assert(toks_view(self.tokens@) =~= number_step(code, st0).tokens);
                        assert(final(self)@ =~= after_step(old(self)@, number_step(code, st0)));
                    }
                },
                Result::Err(NumberError::Format) => {
                    self.report("Malformed number.");
                    proof {
                        assert(final(self)@ =~= after_step(old(self)@, number_step(code, st0)));
                    }
                },
                Result::Err(NumberError::TooLarge) => {
                    self.report("Number too large.");
                    proof {
                        assert(final(self)@ =~= after_step(old(self)@, number_step(code, st0)));
                    }
                },
            }
        }
    }

    /// Reads one identifier; the cursor sits on its first character.
    fn identifier(&mut self)
        requires
            old(self).wf(),
            old(self)@.i < old(self)@.code.len(),
            !is_ident_stop(old(self)@.code[old(self)@.i]),
        ensures
            final(self).wf(),
            final(self)@ == after_step(
                old(self)@,
                ident_step(old(self)@.code, scan_state(old(self)@)),
            ),
            final(self)@.i > old(self)@.i,
    {
        let ghost code = self@.code;
        let ghost st0 = scan_state(self@);
        let mut identifier: Vec<char> = Vec::new();
        proof {
            assert(identifier@ =~= code.subrange(st0.i, self@.i));
        }
        while self.current_index < self.code.len() && self.code[self.current_index] != ' '
            && self.code[self.current_index] != ':' && self.code[self.current_index] != '('
            && self.code[self.current_index] != ')' && self.code[self.current_index] != '.'
            && self.code[self.current_index] != '\n' && self.code[self.current_index] != ']'
            && self.code[self.current_index] != '['
            invariant
                self.wf(),
                self@.code == code,
                self@ == (TkV { i: self@.i, offset: self@.offset, ..old(self)@ }),
                0 <= st0.i <= self@.i <= code.len(),
                forall|k: int| st0.i <= k < self@.i ==> !is_ident_stop(#[trigger] code[k]),
                identifier@ == code.subrange(st0.i, self@.i),
                self@.offset == adv_offset_flat(st0.offset, self@.i - st0.i),
            decreases code.len() - self@.i,
        {
            let c = self.consume();
            identifier.push(c);
            proof {
                assert(identifier@ =~= code.subrange(st0.i, self@.i));
            }
        }
        proof {
            lemma_ident_lex_end_at(code, st0.i, self@.i);
        }
        let loc = self.make_location();
        self.tokens.push(Token::IDENTIFIER(identifier, loc));
        proof {
            assert(toks_view(self.tokens@) =~= ident_step(code, st0).tokens);
            assert(final(self)@ =~= after_step(old(self)@, ident_step(code, st0)));
        }
    }

    /// Skips a block comment; the cursor sits just past the opening `\*`.
    /// The comment is not nested and ends at the first `*\` or at the end
    /// of input.
    fn comment(&mut self)
        requires
            old(self).wf(),
        ensures
            final(self).wf(),
            final(self)@ == after_step(
                old(self)@,
                comment_step(old(self)@.code, scan_state(old(self)@)),
            ),
            final(self)@.i >= old(self)@.i,
    {
        let ghost code = self@.code;
        let ghost st0 = scan_state(self@);
        while self.current_index < self.code.len() && !(self.code[self.current_index] == '*'
            && self.current_index + 1 < self.code.len() && self.code[self.current_index + 1]
            == '\\')
            invariant
                self.wf(),
                self@.code == code,
                self@ == (TkV { i: self@.i, offset: self@.offset, ..old(self)@ }),
                0 <= st0.i <= self@.i <= code.len(),
                forall|k: int|
                    st0.i <= k < self@.i ==> !(#[trigger] code[k] == '*' && peek_at(code, k + 1)
                        == '\\'),
                self@.offset == adv_offset_flat(st0.offset, self@.i - st0.i),
            decreases code.len() - self@.i,
        {
            let _ = self.consume();
        }
        let ghost j = self@.i;
        proof {
            lemma_comment_end_at(code, st0.i, j);
        }
        if self.current_index < self.code.len() {
            let _ = self.consume();
            let _ = self.consume();
            proof {
                assert(comment_end(code, st0.i) == j + 2);
                assert(adv_offset_flat(st0.offset, j + 2 - st0.i) == sat_inc64(
                    adv_offset_flat(st0.offset, j + 1 - st0.i),
                ));
                assert(adv_offset_flat(st0.offset, j + 1 - st0.i) == sat_inc64(
                    adv_offset_flat(st0.offset, j - st0.i),
                ));
                assert(final(self)@ =~= after_step(old(self)@, comment_step(code, st0)));
            }
        } else {
            proof {
                assert(comment_end(code, st0.i) == j);
                assert(final(self)@ =~= after_step(old(self)@, comment_step(code, st0)));
            }
        }
    }

    /// Whether a path was already included in this pass.
    fn contains_module(&self, path: &Vec<char>) -> (r: bool)
        ensures
            r == self@.modules.contains(path@),
    {
        let mut k: usize = 0;
        while k < self.modules.len()
            invariant
                k <= self.modules@.len(),
                forall|j: int| 0 <= j < k ==> #[trigger] paths_view(self.modules@)[j] != path@,
            decreases self.modules@.len() - k,
        {
            if chars_eq(&self.modules[k], path) {
                proof {
                    assert(paths_view(self.modules@)[k as int] == path@);
                }
                return true;
            }
            k = k + 1;
        }
        proof {
            assert forall|j: int| 0 <= j < self@.modules.len() implies #[trigger] self@.modules[j]
                != path@ by {
                assert(paths_view(self.modules@)[j] != path@);
            }
        }
        false
    }

    /// The source of a module, from the host-provided table.
    fn lookup_module(&self, path: &Vec<char>) -> (r: Option<Vec<char>>)
        ensures
            match r {
                Option::Some(src) => table_find(self@.table, 0, path@) == Option::Some(src@),
                Option::None => table_find(self@.table, 0, path@) is None,
            },
    {
        let ghost table = self@.table;
        let mut k: usize = 0;
        while k < self.table.len()
            invariant
                k <= table.len(),
                table == self@.table,
                table_find(table, 0, path@) == table_find(table, k as int, path@),
            decreases table.len() - k,
        {
            if chars_eq(&self.table[k].0, path) {
                proof {
                    assert(table[k as int].0 == path@);
                }
                return Option::Some(copy_chars(&self.table[k].1));
            }
            k = k + 1;
            proof {
                assert(table[k - 1].0 != path@);
            }
        }
        Option::None
    }

    /// Handles a `#` directive; the cursor sits on the `#`. `#<path>`
    /// splices the tokens of the named module, each path honored at most
    /// once per pass; a bare `#name` renames the current module for
    /// diagnostics.
    fn process(&mut self)
        requires
            old(self).wf(),
            old(self)@.i < old(self)@.code.len(),
        ensures
            final(self).wf(),
            final(self)@ == after_step(
                old(self)@,
                process_step(
                    old(self)@.code,
                    old(self)@.table,
                    scan_state(old(self)@),
                    old(self)@.depth,
                ),
            ),
            final(self)@.i > old(self)@.i,
        decreases self.include_depth, 0int,
    {
        let ghost code = self@.code;
        let ghost table = self@.table;
        let ghost st0 = scan_state(self@);
        let ghost depth0 = self@.depth;
        let _ = self.consume();
        let ghost st1 = ScanV { i: st0.i + 1, offset: sat_inc64(st0.offset), ..st0 };
        if self.peek() == '<' {
            let _ = self.consume();
            let ghost st2 = ScanV { i: st1.i + 1, offset: sat_inc64(st1.offset), ..st1 };
            let mut path: Vec<char> = Vec::new();
            proof {
                assert(path@ =~= code.subrange(st2.i, self@.i));
            }
            while self.current_index < self.code.len() && self.code[self.current_index] != '>'
                invariant
                    self.wf(),
                    self@.code == code,
                    self@ == (TkV { i: self@.i, offset: self@.offset, ..old(self)@ }),
                    0 <= st2.i <= self@.i <= code.len(),
                    forall|k: int| st2.i <= k < self@.i ==> #[trigger] code[k] != '>',
                    path@ == code.subrange(st2.i, self@.i),
                    self@.offset == adv_offset_flat(st2.offset, self@.i - st2.i),
                decreases code.len() - self@.i,
            {
                let c = self.consume();
                path.push(c);
                proof {
                    assert(path@ =~= code.subrange(st2.i, self@.i));
                }
            }
            let ghost j = self@.i;
            proof {
                lemma_path_lex_end_at(code, st2.i, j);
            }
            if self.current_index < self.code.len() {
                let _ = self.consume();
            }
            let ghost st4 = scan_state(self@);
            proof {
                assert(st4 =~= (if j < code.len() {
                    ScanV {
                        i: j + 1,
                        offset: sat_inc64(adv_offset_flat(st2.offset, j - st2.i)),
                        ..st2
                    }
                } else {
                    ScanV { i: j, offset: adv_offset_flat(st2.offset, j - st2.i), ..st2 }
                }));
            }
            if self.contains_module(&path) {
                proof {
                    assert(final(self)@ =~= after_step(
                        old(self)@,
                        process_step(code, table, st0, depth0),
                    ));
                }
                return ;
            }
            if self.include_depth == 0 {
                self.report("Module inclusion is nested too deeply.");
                proof {
                    assert(final(self)@ =~= after_step(
                        old(self)@,
                        process_step(code, table, st0, depth0),
                    ));
                }
                return ;
            }
            match self.lookup_module(&path) {
                Option::None => {
                    self.report("Unknown module.");
                    proof {
                        assert(final(self)@ =~= after_step(
                            old(self)@,
                            process_step(code, table, st0, depth0),
                        ));
                    }
                },
                Option::Some(src) => {
                    let mut sub_modules = copy_paths(&self.modules);
                    sub_modules.push(copy_chars(&path));
                    let sub_table = copy_table(&self.table);
                    let mut sub = Tokenizer {
                        code: src,
                        current_index: 0,
                        current_line: 1,
                        current_offset: 0,
                        tokens: Vec::new(),
                        had_error: false,
                        modules: sub_modules,
                        module_name: path,
                        diagnostics: Vec::new(),
                        table: sub_table,
                        include_depth: self.include_depth - 1,
                        parens: 0,
                        squares: 0,
                        curlies: 0,
                    };
                    proof {
                        assert(paths_view(sub.modules@) =~= st4.modules.push(sub.module_name@));
                        assert(toks_view(sub.tokens@) =~= Seq::<TokV>::empty());
                        assert(diags_view(sub.diagnostics@) =~= Seq::<DiagV>::empty());
                        assert(scan_state(sub@) =~= (ScanV {
                            i: 0,
                            line: 1,
                            offset: 0,
                            tokens: Seq::empty(),
                            diags: Seq::empty(),
                            had_error: false,
                            module_name: sub.module_name@,
                            modules: st4.modules.push(sub.module_name@),
                            parens: 0,
                            squares: 0,
                            curlies: 0,
                        }));
                    }
                    let _ = sub.tokenize_code();
                    append_tokens(&mut self.tokens, &sub.tokens);
                    append_diags(&mut self.diagnostics, &sub.diagnostics);
                    if sub.had_error {
                        self.had_error = true;
                    }
                    self.modules = sub.modules;
                    proof {
                        assert(final(self)@ =~= after_step(
                            old(self)@,
                            process_step(code, table, st0, depth0),
                        ));
                    }
                },
            }
        } else {
            let mut name: Vec<char> = Vec::new();
            proof {
                assert(name@ =~= code.subrange(st1.i, self@.i));
            }
            while self.current_index < self.code.len() && self.code[self.current_index] != '\n'
                invariant
                    self.wf(),
                    self@.code == code,
                    self@ == (TkV { i: self@.i, offset: self@.offset, ..old(self)@ }),
                    0 <= st1.i <= self@.i <= code.len(),
                    forall|k: int| st1.i <= k < self@.i ==> #[trigger] code[k] != '\n',
                    name@ == code.subrange(st1.i, self@.i),
                    self@.offset == adv_offset_flat(st1.offset, self@.i - st1.i),
                decreases code.len() - self@.i,
            {
                let c = self.consume();
                name.push(c);
                proof {
                    assert(name@ =~= code.subrange(st1.i, self@.i));
                }
            }
            proof {
                lemma_name_lex_end_at(code, st1.i, self@.i);
            }
            self.module_name = name;
            proof {
                assert(final(self)@ =~= after_step(
                    old(self)@,
                    process_step(code, table, st0, depth0),
                ));
            }
        }
    }

    /// Records one diagnostic at the current location and sets the failure
    /// flag.
    fn report(&mut self, msg: &str)
        requires
            old(self).wf(),
        ensures
            final(self).wf(),
            final(self)@ == after_step(old(self)@, with_diag(scan_state(old(self)@), msg@)),
    {
        let location = self.make_location();
        let message = string_to_chars(msg);
        self.diagnostics.push(Diagnostic { message, location });
        self.had_error = true;
        proof {
            assert(diags_view(self.diagnostics@) =~= old(self)@.diags.push(
                DiagV { message: msg@, location: mk_loc(scan_state(old(self)@)) },
            ));
            assert(final(self)@ =~= after_step(
                old(self)@,
                with_diag(scan_state(old(self)@), msg@),
            ));
        }
    }

    /// Drives one scanning pass in the chosen mode; the common body of
    /// [`Tokenizer::tokenize_code`] and [`Tokenizer::tokenize_interpolation`].
    /// Returns the cursor position at which the pass stopped.
    #[verifier::rlimit(100)]
    #[verifier::spinoff_prover]
    fn scan_core(&mut self, interpolation: bool) -> (r: usize)
        requires
            old(self).wf(),
        ensures
            final(self).wf(),
            final(self)@ == after_step(
                old(self)@,
                scan(
                    old(self)@.code,
                    old(self)@.table,
                    if interpolation {
                        ScanMode::Interpolation
                    } else {
                        ScanMode::Code
                    },
                    (ScanV { parens: 0, squares: 0, curlies: 0, ..scan_state(old(self)@) }),
                    old(self)@.depth,
                ),
            ),
            r == final(self)@.i,
        decreases self.include_depth, 1int,
    {
        self.parens = 0;
        self.squares = 0;
        self.curlies = 0;
        let ghost code = self@.code;
        let ghost table = self@.table;
        let ghost depth0 = self@.depth;
        let ghost mode = if interpolation {
            ScanMode::Interpolation
        } else {
            ScanMode::Code
        };
        let ghost init = scan_state(self@);
        proof {
            assert(init =~= (ScanV {
                parens: 0,
                squares: 0,
                curlies: 0,
                ..scan_state(old(self)@)
            }));
        }
        while self.current_index < self.code.len()
            invariant
                self.wf(),
                self@.code == code,
                self@.table == table,
                self@.depth == depth0,
                self@.depth == old(self)@.depth,
                self@.code == old(self)@.code,
                self@.table == old(self)@.table,
                init == (ScanV {
                    parens: 0,
                    squares: 0,
                    curlies: 0,
                    ..scan_state(old(self)@)
                }),
                mode == (if interpolation {
                    ScanMode::Interpolation
                } else {
                    ScanMode::Code
                }),
                scan(code, table, mode, scan_state(self@), depth0) == scan(
                    code,
                    table,
                    mode,
                    init,
                    depth0,
                ),
            decreases code.len() - self@.i,
        {
            let ghost pre = scan_state(self@);
            let current_char = self.peek();
            if self.peek() == '#' && self.peek_next() != ' ' {
                self.process();
                proof {
                    assert(scan_state(self@) =~= bump(pre, scan_state(self@)));
                }
            } else if current_char == '\\' && self.peek_next() == '*' {
                let _ = self.consume();
                let _ = self.consume();
                let ghost st1 = scan_state(self@);
                self.comment();
                proof {
                    assert(st1 =~= (ScanV {
                        i: pre.i + 2,
                        offset: sat_inc64(sat_inc64(pre.offset)),
                        ..pre
                    }));
                    assert(scan_state(self@) =~= bump(pre, comment_step(code, st1)));
                }
            } else if current_char == '\n' {
                let _ = self.consume();
                if self.peek() == '#' && self.peek_next() != ' ' {
                    self.process();
                }
                if self.current_line < u64::MAX {
                    self.current_line = self.current_line + 1;
                }
                self.current_offset = 0;
                proof {
                    let st1 = ScanV { i: pre.i + 1, offset: sat_inc64(pre.offset), ..pre };
                    let st2 = if peek_at(code, st1.i) == '#' && peek_at(code, st1.i + 1) != ' ' {
                        process_step(code, table, st1, depth0)
                    } else {
                        st1
                    };
                    let st3 = ScanV { line: sat_inc64(st2.line), offset: 0, ..st2 };
                    assert(scan_state(self@) =~= st3);
                    assert(scan_state(self@) =~= bump(pre, st3));
                }
            } else if current_char == ' ' || current_char == '\t' {
                let _ = self.consume();
                proof {
                    assert(scan_state(self@) =~= (ScanV {
                        i: pre.i + 1,
                        offset: sat_inc64(pre.offset),
                        ..pre
                    }));
                }
            } else if current_char == '.' {
                let loc = self.make_location();
                self.tokens.push(Token::DOT(loc));
                let _ = self.consume();
                proof {
                    let st1 = ScanV { tokens: pre.tokens.push(TokV::DOT(mk_loc(pre))), ..pre };
                    assert(toks_view(self.tokens@) =~= st1.tokens);
                    assert(scan_state(self@) =~= (ScanV {
                        i: st1.i + 1,
                        offset: sat_inc64(st1.offset),
                        ..st1
                    }));
                }
            } else if current_char == ':' {
                let loc = self.make_location();
                self.tokens.push(Token::COLON(loc));
                let _ = self.consume();
                proof {
                    let st1 = ScanV { tokens: pre.tokens.push(TokV::COLON(mk_loc(pre))), ..pre };
                    assert(toks_view(self.tokens@) =~= st1.tokens);
                    assert(scan_state(self@) =~= (ScanV {
                        i: st1.i + 1,
                        offset: sat_inc64(st1.offset),
                        ..st1
                    }));
                }
            } else if current_char == '(' {
                let loc = self.make_location();
                self.tokens.push(Token::LEFT_BRACKET(loc));
                if self.parens < i64::MAX {
                    self.parens = self.parens + 1;
                }
                let _ = self.consume();
                proof {
                    let st1 = ScanV {
                        tokens: pre.tokens.push(TokV::LEFT_BRACKET(mk_loc(pre))),
                        parens: sat_inc_i64(pre.parens),
                        ..pre
                    };
                    assert(toks_view(self.tokens@) =~= st1.tokens);
                    assert(scan_state(self@) =~= (ScanV {
                        i: st1.i + 1,
                        offset: sat_inc64(st1.offset),
                        ..st1
                    }));
                }
            } else if current_char == ')' {
                let loc = self.make_location();
                self.tokens.push(Token::RIGHT_BRACKET(loc));
                if self.parens > i64::MIN {
                    self.parens = self.parens - 1;
                }
                let ghost st1 = ScanV {
                    tokens: pre.tokens.push(TokV::RIGHT_BRACKET(mk_loc(pre))),
                    parens: sat_dec_i64(pre.parens),
                    ..pre
                };
                proof {
                    assert(scan_state(self@) =~= st1);
                }
                if self.parens == -1 {
                    if interpolation {
                        proof {
                            assert(scan(code, table, mode, init, depth0) == scan_state(self@));
                        }
                        return self.current_index;
                    }
                    self.report("Unexpected ).");
                    let _ = self.consume();
                    proof {
                        let st2 = with_diag(st1, "Unexpected )."@);
                        assert(scan_state(self@) =~= (ScanV {
                            i: st2.i + 1,
                            offset: sat_inc64(st2.offset),
                            ..st2
                        }));
                    }
                } else {
                    let _ = self.consume();
                    proof {
                        assert(scan_state(self@) =~= (ScanV {
                            i: st1.i + 1,
                            offset: sat_inc64(st1.offset),
                            ..st1
                        }));
                    }
                }
            } else if current_char == '[' {
                let loc = self.make_location();
                self.tokens.push(Token::LEFT_SQUARE(loc));
                if self.squares < i64::MAX {
                    self.squares = self.squares + 1;
                }
                let _ = self.consume();
                proof {
                    let st1 = ScanV {
                        tokens: pre.tokens.push(TokV::LEFT_SQUARE(mk_loc(pre))),
                        squares: sat_inc_i64(pre.squares),
                        ..pre
                    };
                    assert(toks_view(self.tokens@) =~= st1.tokens);
                    assert(scan_state(self@) =~= (ScanV {
                        i: st1.i + 1,
                        offset: sat_inc64(st1.offset),
                        ..st1
                    }));
                }
            } else if current_char == ']' {
                let loc = self.make_location();
                self.tokens.push(Token::RIGHT_SQUARE(loc));
                if self.squares > i64::MIN {
                    self.squares = self.squares - 1;
                }
                let ghost st1 = ScanV {
                    tokens: pre.tokens.push(TokV::RIGHT_SQUARE(mk_loc(pre))),
                    squares: sat_dec_i64(pre.squares),
                    ..pre
                };
                proof {
                    assert(scan_state(self@) =~= st1);
                }
                if self.squares == -1 {
                    if interpolation {
                        proof {
                            assert(scan(code, table, mode, init, depth0) == scan_state(self@));
                            assert(final(self)@ =~= after_step(
                                old(self)@,
                                scan(code, table, mode, init, depth0),
                            ));
                        }
                        return self.current_index;
                    }
                    self.report("Unexpected ].");
                    let _ = self.consume();
                    proof {
                        let st2 = with_diag(st1, "Unexpected ]."@);
                        assert(scan_state(self@) =~= (ScanV {
                            i: st2.i + 1,
                            offset: sat_inc64(st2.offset),
                            ..st2
                        }));
                    }
                } else {
                    let _ = self.consume();
                    proof {
                        assert(scan_state(self@) =~= (ScanV {
                            i: st1.i + 1,
                            offset: sat_inc64(st1.offset),
                            ..st1
                        }));
                    }
                }
            } else if current_char == '{' {
                let loc = self.make_location();
                self.tokens.push(Token::LEFT_CURLY(loc));
                if self.curlies < i64::MAX {
                    self.curlies = self.curlies + 1;
                }
                let _ = self.consume();
                proof {
                    let st1 = ScanV {
                        tokens: pre.tokens.push(TokV::LEFT_CURLY(mk_loc(pre))),
                        curlies: sat_inc_i64(pre.curlies),
                        ..pre
                    };
                    assert(toks_view(self.tokens@) =~= st1.tokens);
                    assert(scan_state(self@) =~= (ScanV {
                        i: st1.i + 1,
                        offset: sat_inc64(st1.offset),
                        ..st1
                    }));
                }
            } else if current_char == '}' {
                let loc = self.make_location();
                self.tokens.push(Token::RIGHT_CURLY(loc));
                if self.curlies > i64::MIN {
                    self.curlies = self.curlies - 1;
                }
                let ghost st1 = ScanV {
                    tokens: pre.tokens.push(TokV::RIGHT_CURLY(mk_loc(pre))),
                    curlies: sat_dec_i64(pre.curlies),
                    ..pre
                };
                proof {
                    assert(scan_state(self@) =~= st1);
                }
                if self.curlies == -1 {
                    if interpolation {
                        proof {
                            assert(scan(code, table, mode, init, depth0) == scan_state(self@));
                            assert(final(self)@ =~= after_step(
                                old(self)@,
                                scan(code, table, mode, init, depth0),
                            ));
                        }
                        return self.current_index;
                    }
                    self.report("Unexpected }.");
                    let _ = self.consume();
                    proof {
                        let st2 = with_diag(st1, "Unexpected }."@);
                        assert(scan_state(self@) =~= (ScanV {
                            i: st2.i + 1,
                            offset: sat_inc64(st2.offset),
                            ..st2
                        }));
                    }
                } else {
                    let _ = self.consume();
                    proof {
                        assert(scan_state(self@) =~= (ScanV {
                            i: st1.i + 1,
                            offset: sat_inc64(st1.offset),
                            ..st1
                        }));
                    }
                }
            } else if current_char == '"' {
                self.string();
                proof {
                    assert(scan_state(self@) =~= bump(pre, scan_state(self@)));
                }
            } else if Tokenizer::is_a_digit(current_char) {
                proof {
                    assert(!is_num_stop(code[pre.i]));
                }
                self.number();
                proof {
                    assert(scan_state(self@) =~= bump(pre, scan_state(self@)));
                }
            } else {
                proof {
                    assert(!is_ident_stop(code[pre.i]));
                }
                self.identifier();
                proof {
                    assert(scan_state(self@) =~= bump(pre, scan_state(self@)));
                }
            }
            proof {
                assert(scan(code, table, mode, pre, depth0) == scan(
                    code,
                    table,
                    mode,
                    scan_state(self@),
                    depth0,
                ));
            }
        }
        if !interpolation {
            let ghost stend = scan_state(self@);
            if self.curlies != 0 {
                self.report("Missing }");
            } else if self.parens != 0 {
                self.report("Missing )");
            } else if self.squares != 0 {
                self.report("Missing ]");
            }
            proof {
                assert(scan_state(self@) =~= end_step(stend));
                assert(scan(code, table, mode, init, depth0) == scan_state(self@));
                assert(final(self)@ =~= after_step(
                    old(self)@,
                    scan(code, table, mode, init, depth0),
                ));
            }
        } else {
            proof {
                assert(scan(code, table, mode, init, depth0) == scan_state(self@));
                assert(final(self)@ =~= after_step(
                    old(self)@,
                    scan(code, table, mode, init, depth0),
                ));
            }
        }
        self.current_index
    }

    /// Scans the whole source in code mode. Diagnostics accumulate; the
    /// result says whether any were reported.
    pub fn tokenize_code(&mut self) -> (r: bool)
        requires
            old(self).wf(),
        ensures
            final(self).wf(),
            final(self)@ == after_step(
                old(self)@,
                scan(
                    old(self)@.code,
                    old(self)@.table,
                    ScanMode::Code,
                    (ScanV { parens: 0, squares: 0, curlies: 0, ..scan_state(old(self)@) }),
                    old(self)@.depth,
                ),
            ),
            r == final(self)@.had_error,
        decreases self.include_depth, 2int,
    {
        let _ = self.scan_core(false);
        self.had_error
    }

    /// Scans an interpolation span: identical rules, but the pass ends at
    /// the first unmatched closing delimiter instead of reporting it, and
    /// the position where it stopped is returned.
    pub fn tokenize_interpolation(&mut self) -> (r: usize)
        requires
            old(self).wf(),
        ensures
            final(self).wf(),
            final(self)@ == after_step(
                old(self)@,
                scan(
                    old(self)@.code,
                    old(self)@.table,
                    ScanMode::Interpolation,
                    (ScanV { parens: 0, squares: 0, curlies: 0, ..scan_state(old(self)@) }),
                    old(self)@.depth,
                ),
            ),
            r == final(self)@.i,
        decreases self.include_depth, 2int,
    {
        self.scan_core(true)
    }

    /// Scans a whole module: the token stream is wrapped in one block, so
    /// a parsed module is a block of statements.
    pub fn tokenize_module(&mut self) -> (r: bool)
        requires
            old(self).wf(),
        ensures
            final(self).wf(),
            final(self)@ == after_step(
                old(self)@,
                scan_module(
                    old(self)@.code,
                    old(self)@.table,
                    scan_state(old(self)@),
                    old(self)@.depth,
                ),
            ),
            r == final(self)@.had_error,
        decreases self.include_depth, 3int,
    {
        let ghost st0 = scan_state(self@);
        let loc = self.make_location();
        self.tokens.push(Token::LEFT_CURLY(loc));
        proof {
            assert(scan_state(self@) =~= (ScanV {
                tokens: st0.tokens.push(TokV::LEFT_CURLY(mk_loc(st0))),
                ..st0
            }));
        }
        let r = self.tokenize_code();
        let loc2 = self.make_location();
        self.tokens.push(Token::RIGHT_CURLY(loc2));
        proof {
            assert(scan_state(self@) =~= scan_module(
                old(self)@.code,
                old(self)@.table,
                st0,
                old(self)@.depth,
            ));
            assert(final(self)@ =~= after_step(
                old(self)@,
                scan_module(old(self)@.code, old(self)@.table, st0, old(self)@.depth),
            ));
        }
        r
    }
}

} // verus!
