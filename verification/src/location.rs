//! Source positions and diagnostics. A location names the module, the
//! 1-based line and the 1-based character offset where something was seen;
//! it is carried on every token and used only for reporting.

use vstd::prelude::*;
use crate::chars::chars_to_string;

verus! {

/// A source position.
#[derive(Clone, Debug)]
pub struct Location {
    pub module: Vec<char>,
    pub line: u64,
    pub offset: u64,
}

/// The mathematical image of a `Location`.
pub struct LocV {
    pub module: Seq<char>,
    pub line: int,
    pub offset: int,
}

impl View for Location {
    type V = LocV;

    open spec fn view(&self) -> LocV {
        LocV { module: self.module@, line: self.line as int, offset: self.offset as int }
    }
}

impl Location {
    pub fn new(module: Vec<char>, line: u64, offset: u64) -> (r: Location)
        ensures
            r@.module == module@,
            r@.line == line as int,
            r@.offset == offset as int,
    {
        Location { module, line, offset }
    }

    pub fn empty() -> (r: Location)
        ensures
            r@.module == Seq::<char>::empty(),
            r@.line == 0,
            r@.offset == 0,
    {
        Location { module: Vec::new(), line: 0, offset: 0 }
    }

    /// A structural copy whose view equals this one's.
    pub fn duplicate(&self) -> (r: Location)
        ensures
            r@ == self@,
    {
        let mut module: Vec<char> = Vec::new();
        let mut i: usize = 0;
        while i < self.module.len()
            invariant
                i <= self.module@.len(),
                module@ == self.module@.take(i as int),
            decreases self.module@.len() - i,
        {
            module.push(self.module[i]);
            i = i + 1;
            proof {
                assert(module@ =~= self.module@.take(i as int));
            }
        }
        proof {
            assert(module@ =~= self.module@);
        }
        Location { module, line: self.line, offset: self.offset }
    }
}

/// One reported problem: a message tied to a source position.
#[derive(Clone, Debug)]
pub struct Diagnostic {
    pub message: Vec<char>,
    pub location: Location,
}

/// The mathematical image of a `Diagnostic`.
pub struct DiagV {
    pub message: Seq<char>,
    pub location: LocV,
}

impl View for Diagnostic {
    type V = DiagV;

    open spec fn view(&self) -> DiagV {
        DiagV { message: self.message@, location: self.location@ }
    }
}

/// The exact text of a rendered diagnostic line:
/// `! [line:offset] in module: message`.
pub open spec fn diag_chars(d: DiagV) -> Seq<char> {
    seq!['!', ' ', '['] + crate::number::dec_digits_min(d.location.line as nat, 1) + seq![':']
        + crate::number::dec_digits_min(d.location.offset as nat, 1) + seq![']', ' ', 'i', 'n', ' ']
        + d.location.module + seq![':', ' '] + d.message
}

impl Diagnostic {
    /// Renders this diagnostic in the interpreter's reporting format,
    /// `! [line:offset] in module: message`.
    pub fn render(&self) -> (r: String)
        ensures
            r@ == diag_chars(self@),
    {
        let mut out: Vec<char> = Vec::new();
        out.push('!');
        out.push(' ');
        out.push('[');
        crate::number::push_dec_digits(&mut out, self.location.line, 1);
        out.push(':');
        crate::number::push_dec_digits(&mut out, self.location.offset, 1);
        out.push(']');
        out.push(' ');
        out.push('i');
        out.push('n');
        out.push(' ');
        let mut i: usize = 0;
        let ghost head: Seq<char> = out@;
        while i < self.location.module.len()
            invariant
                i <= self.location.module@.len(),
                out@ == head + self.location.module@.take(i as int),
            decreases self.location.module@.len() - i,
        {
            out.push(self.location.module[i]);
            i = i + 1;
            proof {
                assert(out@ =~= head + self.location.module@.take(i as int));
            }
        }
        out.push(':');
        out.push(' ');
        let mut j: usize = 0;
        let ghost head2: Seq<char> = out@;
        while j < self.message.len()
            invariant
                j <= self.message@.len(),
                out@ == head2 + self.message@.take(j as int),
            decreases self.message@.len() - j,
        {
            out.push(self.message[j]);
            j = j + 1;
            proof {
                assert(out@ =~= head2 + self.message@.take(j as int));
            }
        }
        proof {
            assert(self.location.module@.take(self.location.module@.len() as int)
                =~= self.location.module@);
            assert(self.message@.take(self.message@.len() as int) =~= self.message@);
            assert(out@ =~= diag_chars(self@));
        }
        chars_to_string(&out)
    }
}

} // verus!
