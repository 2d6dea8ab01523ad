//! Runtime values: what evaluation produces and the only objects handed
//! back to the host.

use vstd::prelude::*;
use crate::chars::{chars_to_string, copy_chars};
use crate::expression::{Expression, ExprV, value_view, values_view, duplicate_expressions,
    lemma_values_view_index};
use crate::number::{Number, num_chars};

verus! {

/// The built-in native functions scripts can call. The host wires these
/// under names of its choosing; their dispatch contract is fixed here.
///
/// This is a closed set: the verifier cannot give a contract to a call
/// through a host-supplied function pointer, so a host extends the
/// language by binding these built-ins under new names or by installing
/// variables, not by registering arbitrary code.
#[derive(Clone, Copy, PartialEq, Eq, Structural, Debug)]
pub enum NativeFunction {
    /// Applied to a list and a whole-number index, returns the indexed
    /// element (zero-based), which makes the subscript sugar `a[k]` an
    /// element access; otherwise returns its last argument, the identity
    /// used to read a value.
    GET,
    /// Maps a block over a list, binding `element` for each entry.
    MAP,
    /// Evaluates its arguments in order and returns the last result.
    RUN,
    /// Adds numbers, or concatenates text representations.
    ADD,
    /// Requests that the host stop the interpreter.
    EXIT,
}

/// One runtime value.
#[derive(Debug)]
pub enum Value {
    NULL,
    NUMBER(Number),
    STRING(Vec<char>),
    LIST(Vec<Value>),
    /// An unevaluated closure, invoked by callees such as `map`.
    BLOCK(Vec<Expression>),
    /// A native function together with its arity; `-1` means variadic.
    NATIVE_FUNCTION(NativeFunction, i64),
    KEY_VALUE(Vec<char>, Box<Value>),
}

/// The mathematical image of a `Value`.
pub enum ValueV {
    NULL,
    NUMBER(Number),
    STRING(Seq<char>),
    LIST(Seq<ValueV>),
    BLOCK(Seq<ExprV>),
    NATIVE_FUNCTION(NativeFunction, int),
    KEY_VALUE(Seq<char>, Box<ValueV>),
}

impl View for Value {
    type V = ValueV;

    open spec fn view(&self) -> ValueV {
        value_view(*self)
    }
}

/// The text representation of a value. Every element of a list is followed
/// by one space; a key-value pair reads `key: value`.
pub open spec fn text_of(v: ValueV) -> Seq<char>
    decreases v,
{
    match v {
        ValueV::NULL => seq!['n', 'u', 'l', 'l'],
        ValueV::NUMBER(n) => num_chars(n),
        ValueV::STRING(s) => s,
        ValueV::LIST(vs) => texts_of(vs),
        ValueV::BLOCK(_) => seq!['b', 'l', 'o', 'c', 'k'],
        ValueV::NATIVE_FUNCTION(_, _) => seq!['f', 'u', 'n', 'c', 't', 'i', 'o', 'n'],
        ValueV::KEY_VALUE(k, b) => k + seq![':', ' '] + text_of(*b),
    }
}

pub open spec fn texts_of(vs: Seq<ValueV>) -> Seq<char>
    decreases vs,
{
    if vs.len() == 0 {
        Seq::empty()
    } else {
        texts_of(vs.drop_last()) + text_of(vs.last()) + seq![' ']
    }
}

/// A deep, view-preserving copy of one value.
pub fn duplicate_value(v: &Value) -> (r: Value)
    ensures
        r@ == v@,
    decreases v,
{
    match v {
        Value::NULL => Value::NULL,
        Value::NUMBER(n) => Value::NUMBER(*n),
        Value::STRING(s) => Value::STRING(copy_chars(s)),
        Value::LIST(vs) => Value::LIST(duplicate_values(vs)),
        Value::BLOCK(es) => Value::BLOCK(duplicate_expressions(es)),
        Value::NATIVE_FUNCTION(f, a) => Value::NATIVE_FUNCTION(*f, *a),
        Value::KEY_VALUE(n, b) => Value::KEY_VALUE(copy_chars(n), Box::new(duplicate_value(b))),
    }
}

/// A deep, view-preserving copy of a value vector.
pub fn duplicate_values(vs: &Vec<Value>) -> (r: Vec<Value>)
    ensures
        values_view(r@) == values_view(vs@),
    decreases vs@,
{
    let mut r: Vec<Value> = Vec::new();
    let mut i: usize = 0;
    while i < vs.len()
        invariant
            i <= vs@.len(),
            r@.len() == i,
            forall|j: int| 0 <= j < i ==> #[trigger] value_view(r@[j]) == value_view(vs@[j]),
        decreases vs@.len() - i,
    {
        let d = duplicate_value(&vs[i]);
        r.push(d);
        i = i + 1;
    }
    proof {
        lemma_values_view_index(r@);
        lemma_values_view_index(vs@);
        assert(values_view(r@) =~= values_view(vs@));
    }
    r
}

/// Appends the text of every element of a list, each followed by a space.
pub fn push_texts(vs: &Vec<Value>, out: &mut Vec<char>)
    ensures
        final(out)@ == old(out)@ + texts_of(values_view(vs@)),
    decreases vs@,
{
    let ghost vsv = values_view(vs@);
    proof {
        lemma_values_view_index(vs@);
        assert(out@ =~= old(out)@ + texts_of(vsv.take(0)));
    }
    let mut i: usize = 0;
    while i < vs.len()
        invariant
            i <= vs@.len(),
            vsv == values_view(vs@),
            vsv.len() == vs@.len(),
            forall|j: int| 0 <= j < vs@.len() ==> #[trigger] vsv[j] == value_view(vs@[j]),
            out@ == old(out)@ + texts_of(vsv.take(i as int)),
        decreases vs@.len() - i,
    {
        proof {
            assert(vsv[i as int] == value_view(vs@[i as int]));
        }
        push_text(&vs[i], out);
        out.push(' ');
        i = i + 1;
        proof {
            assert(vsv.take(i as int).drop_last() =~= vsv.take(i - 1));
            assert(vsv.take(i as int).last() == vsv[i - 1]);
            assert(out@ =~= old(out)@ + texts_of(vsv.take(i as int)));
        }
    }
    proof {
        assert(vsv.take(vsv.len() as int) =~= vsv);
    }
}

/// Appends the text of `v` to `out`.
pub fn push_text(v: &Value, out: &mut Vec<char>)
    ensures
        final(out)@ == old(out)@ + text_of(value_view(*v)),
    decreases v,
{
    match v {
        Value::NULL => {
            out.push('n');
            out.push('u');
            out.push('l');
            out.push('l');
            proof {
                assert(final(out)@ =~= old(out)@ + text_of(value_view(*v)));
            }
        },
        Value::NUMBER(n) => {
            let t = n.to_chars();
            let mut i: usize = 0;
            while i < t.len()
                invariant
                    i <= t@.len(),
                    out@ == old(out)@ + t@.take(i as int),
                decreases t@.len() - i,
            {
                out.push(t[i]);
                i = i + 1;
                proof {
                    assert(out@ =~= old(out)@ + t@.take(i as int));
                }
            }
            proof {
                assert(t@.take(t@.len() as int) =~= t@);
            }
        },
        Value::STRING(s) => {
            let mut i: usize = 0;
            while i < s.len()
                invariant
                    i <= s@.len(),
                    out@ == old(out)@ + s@.take(i as int),
                decreases s@.len() - i,
            {
                out.push(s[i]);
                i = i + 1;
                proof {
                    assert(out@ =~= old(out)@ + s@.take(i as int));
                }
            }
            proof {
                assert(s@.take(s@.len() as int) =~= s@);
            }
        },
        Value::LIST(vs) => {
            push_texts(vs, out);
        },
        Value::BLOCK(_) => {
            out.push('b');
            out.push('l');
            out.push('o');
            out.push('c');
            out.push('k');
            proof {
                assert(final(out)@ =~= old(out)@ + text_of(value_view(*v)));
            }
        },
        Value::NATIVE_FUNCTION(_, _) => {
            out.push('f');
            out.push('u');
            out.push('n');
            out.push('c');
            out.push('t');
            out.push('i');
            out.push('o');
            out.push('n');
            proof {
                assert(final(out)@ =~= old(out)@ + text_of(value_view(*v)));
            }
        },
        Value::KEY_VALUE(k, b) => {
            let mut i: usize = 0;
            while i < k.len()
                invariant
                    i <= k@.len(),
                    out@ == old(out)@ + k@.take(i as int),
                decreases k@.len() - i,
            {
                out.push(k[i]);
                i = i + 1;
                proof {
                    assert(out@ =~= old(out)@ + k@.take(i as int));
                }
            }
            out.push(':');
            out.push(' ');
            push_text(&**b, out);
            proof {
                assert(k@.take(k@.len() as int) =~= k@);
                assert(final(out)@ =~= old(out)@ + text_of(value_view(*v)));
            }
        },
    }
}

impl Value {
    /// The text representation of this value, as the interactive loop and
    /// the host see it.
    pub fn text_representation(&self) -> (r: String)
        ensures
            r@ == text_of(self@),
    {
        let mut out: Vec<char> = Vec::new();
        push_text(self, &mut out);
        chars_to_string(&out)
    }
}

} // verus!
