//! Decimal numbers. A number literal of the language is kept exactly as a
//! scaled decimal: `mantissa * 10^-scale`. The scale is bounded so that
//! aligning two numbers for addition can never need more than one power of
//! ten that fits in `u64`; literals outside these machine bounds are
//! rejected when they are scanned.

use vstd::prelude::*;

verus! {

/// Largest number of fraction digits a number may carry.
pub const MAX_SCALE: u32 = 18;

/// A decimal number: the value `mantissa * 10^-scale`.
#[derive(Clone, Copy, PartialEq, Eq, Structural, Debug)]
pub struct Number {
    pub mantissa: i64,
    pub scale: u32,
}

/// Well-formedness: the scale stays within the declared bound.
pub open spec fn num_wf(n: Number) -> bool {
    n.scale <= MAX_SCALE
}

pub open spec fn is_digit(c: char) -> bool {
    '0' <= c && c <= '9'
}

pub open spec fn digit_val(c: char) -> int {
    c as int - '0' as int
}

pub open spec fn digit_char(d: int) -> char {
    if d == 0 {
        '0'
    } else if d == 1 {
        '1'
    } else if d == 2 {
        '2'
    } else if d == 3 {
        '3'
    } else if d == 4 {
        '4'
    } else if d == 5 {
        '5'
    } else if d == 6 {
        '6'
    } else if d == 7 {
        '7'
    } else if d == 8 {
        '8'
    } else {
        '9'
    }
}

/// The decimal digits of `n`, padded on the left with zeros to at least
/// `min` characters.
pub open spec fn dec_digits_min(n: nat, min: nat) -> Seq<char>
    decreases n, min,
{
    if n < 10 && min <= 1 {
        seq![digit_char(n as int)]
    } else {
        let m2: nat = if min == 0 {
            0
        } else {
            (min - 1) as nat
        };
        dec_digits_min(n / 10, m2).push(digit_char((n % 10) as int))
    }
}

pub proof fn lemma_dec_digits_min_len(n: nat, min: nat)
    ensures
        dec_digits_min(n, min).len() >= 1,
        dec_digits_min(n, min).len() >= min,
    decreases n, min,
{
    if n < 10 && min <= 1 {
    } else {
        let m2: nat = if min == 0 {
            0
        } else {
            (min - 1) as nat
        };
        lemma_dec_digits_min_len(n / 10, m2);
    }
}

/// The text of a number: an optional minus sign, the integer digits, and,
/// for a positive scale, a decimal point followed by exactly `scale`
/// fraction digits.
pub open spec fn num_chars(n: Number) -> Seq<char> {
    let mag: nat = if n.mantissa < 0 {
        (-(n.mantissa as int)) as nat
    } else {
        n.mantissa as nat
    };
    let sign: Seq<char> = if n.mantissa < 0 {
        seq!['-']
    } else {
        Seq::empty()
    };
    if n.scale == 0 {
        sign + dec_digits_min(mag, 1)
    } else {
        let ds = dec_digits_min(mag, n.scale as nat + 1);
        sign + ds.take(ds.len() - n.scale) + seq!['.'] + ds.skip(ds.len() - n.scale)
    }
}

fn digit_to_char(d: u64) -> (c: char)
    requires
        d < 10,
    ensures
        c == digit_char(d as int),
{
    if d == 0 {
        '0'
    } else if d == 1 {
        '1'
    } else if d == 2 {
        '2'
    } else if d == 3 {
        '3'
    } else if d == 4 {
        '4'
    } else if d == 5 {
        '5'
    } else if d == 6 {
        '6'
    } else if d == 7 {
        '7'
    } else if d == 8 {
        '8'
    } else {
        '9'
    }
}

pub fn push_dec_digits(out: &mut Vec<char>, n: u64, min: u64)
    ensures
        final(out)@ == old(out)@ + dec_digits_min(n as nat, min as nat),
    decreases n, min,
{
    if n < 10 && min <= 1 {
        let c = digit_to_char(n);
        out.push(c);
        proof {
            assert(final(out)@ =~= old(out)@ + dec_digits_min(n as nat, min as nat));
        }
    } else {
        let m2: u64 = if min == 0 {
            0
        } else {
            min - 1
        };
        push_dec_digits(out, n / 10, m2);
        let c = digit_to_char(n % 10);
        out.push(c);
        proof {
            assert(final(out)@ =~= old(out)@ + dec_digits_min(n as nat, min as nat));
        }
    }
}

impl Number {
    /// The text of this number, character by character.
    pub fn to_chars(&self) -> (r: Vec<char>)
        ensures
            r@ == num_chars(*self),
    {
        let mut out: Vec<char> = Vec::new();
        if self.mantissa < 0 {
            out.push('-');
            proof {
                assert(out@ =~= seq!['-']);
            }
        }
        let ghost sign: Seq<char> = out@;
        proof {
            assert(sign == if self.mantissa < 0 {
                seq!['-']
            } else {
                Seq::<char>::empty()
            });
        }
        let mag: u64 = if self.mantissa == i64::MIN {
            9223372036854775808u64
        } else if self.mantissa < 0 {
            (-self.mantissa) as u64
        } else {
            self.mantissa as u64
        };
        proof {
            assert(mag as nat == (if self.mantissa < 0 {
                (-(self.mantissa as int)) as nat
            } else {
                self.mantissa as nat
            }));
        }
        if self.scale == 0 {
            push_dec_digits(&mut out, mag, 1);
            proof {
                assert(out@ =~= num_chars(*self));
            }
            out
        } else {
            let mut ds: Vec<char> = Vec::new();
            push_dec_digits(&mut ds, mag, (self.scale as u64) + 1);
            proof {
                lemma_dec_digits_min_len(mag as nat, self.scale as nat + 1);
            }
            let split = ds.len() - (self.scale as usize);
            proof {
                assert(out@ =~= sign + ds@.take(0));
            }
            let mut i: usize = 0;
            while i < split
                invariant
                    i <= split,
                    split == ds@.len() - self.scale,
                    self.scale >= 1,
                    out@ == sign + ds@.take(i as int),
                decreases split - i,
            {
                let c = ds[i];
                out.push(c);
                i = i + 1;
                proof {
                    assert(out@ =~= sign + ds@.take(i as int));
                }
            }
            out.push('.');
            proof {
                assert(out@ =~= sign + ds@.take(split as int) + seq!['.'] + ds@.subrange(
                    split as int,
                    split as int,
                ));
            }
            let mut j: usize = split;
            while j < ds.len()
                invariant
                    split <= j <= ds@.len(),
                    split == ds@.len() - self.scale,
                    out@ == sign + ds@.take(split as int) + seq!['.'] + ds@.subrange(
                        split as int,
                        j as int,
                    ),
                decreases ds@.len() - j,
            {
                let c = ds[j];
                out.push(c);
                j = j + 1;
                proof {
                    assert(out@ =~= sign + ds@.take(split as int) + seq!['.'] + ds@.subrange(
                        split as int,
                        j as int,
                    ));
                }
            }
            proof {
                assert(ds@.subrange(split as int, ds@.len() as int) =~= ds@.skip(split as int));
                assert(out@ =~= num_chars(*self));
            }
            out
        }
    }
}

/// Why a number literal was rejected.
#[derive(Clone, Copy, PartialEq, Eq, Structural, Debug)]
pub enum NumberError {
    /// The text is not of the shape `-?digits(.digits?)?`.
    Format,
    /// The value needs more mantissa bits or fraction digits than a
    /// `Number` carries.
    TooLarge,
}

/// Position of the first `.` in the text, if any.
pub open spec fn first_dot(s: Seq<char>) -> Option<int>
    decreases s.len(),
{
    if s.len() == 0 {
        None
    } else {
        match first_dot(s.drop_last()) {
            Option::Some(d) => Option::Some(d),
            Option::None => if s.last() == '.' {
                Option::Some(s.len() - 1)
            } else {
                Option::None
            },
        }
    }
}

pub proof fn lemma_first_dot_bound(s: Seq<char>)
    ensures
        match first_dot(s) {
            Option::Some(d) => 0 <= d < s.len() && s[d] == '.',
            Option::None => true,
        },
    decreases s.len(),
{
    if s.len() > 0 {
        lemma_first_dot_bound(s.drop_last());
    }
}

/// Every character is a decimal digit, except the single first dot.
pub open spec fn digits_and_dot(s: Seq<char>) -> bool {
    forall|i: int|
        0 <= i < s.len() ==> (is_digit(#[trigger] s[i]) || first_dot(s) == Option::Some(i))
}

/// The digits of the text read as one integer, dots skipped.
pub open spec fn mant_of(s: Seq<char>) -> int
    decreases s.len(),
{
    if s.len() == 0 {
        0
    } else if is_digit(s.last()) {
        mant_of(s.drop_last()) * 10 + digit_val(s.last())
    } else {
        mant_of(s.drop_last())
    }
}

pub proof fn lemma_mant_of_nonneg(s: Seq<char>)
    ensures
        mant_of(s) >= 0,
    decreases s.len(),
{
    if s.len() > 0 {
        lemma_mant_of_nonneg(s.drop_last());
    }
}

pub open spec fn num_negative(s: Seq<char>) -> bool {
    s.len() > 0 && s[0] == '-'
}

pub open spec fn num_body(s: Seq<char>) -> Seq<char> {
    if num_negative(s) {
        s.skip(1)
    } else {
        s
    }
}

pub open spec fn num_scale_of(t: Seq<char>) -> int {
    match first_dot(t) {
        Option::Some(d) => t.len() - 1 - d,
        Option::None => 0,
    }
}

/// The text is a well-formed number literal: an optional leading minus,
/// then digits with at most one dot, and not a dot alone.
pub open spec fn num_format(s: Seq<char>) -> bool {
    let t = num_body(s);
    t.len() > 0 && digits_and_dot(t) && (first_dot(t) is Some ==> t.len() > 1)
}

/// The value of the text stays within the mantissa and scale bounds.
pub open spec fn num_fits(s: Seq<char>) -> bool {
    let t = num_body(s);
    mant_of(t) <= i64::MAX && num_scale_of(t) <= MAX_SCALE
}

/// The number a well-formed, fitting text denotes.
pub open spec fn num_of_chars(s: Seq<char>) -> Number {
    let t = num_body(s);
    let m: int = if num_negative(s) {
        -mant_of(t)
    } else {
        mant_of(t)
    };
    Number { mantissa: m as i64, scale: num_scale_of(t) as u32 }
}

proof fn lemma_step_push(p: Seq<char>, c: char)
    ensures
        first_dot(p.push(c)) == (match first_dot(p) {
            Option::Some(d) => Option::Some(d),
            Option::None => if c == '.' {
                Option::Some(p.len() as int)
            } else {
                Option::None
            },
        }),
        digits_and_dot(p.push(c)) == (digits_and_dot(p) && (is_digit(c) || (first_dot(p) is None
            && c == '.'))),
        mant_of(p.push(c)) == if is_digit(c) {
            mant_of(p) * 10 + digit_val(c)
        } else {
            mant_of(p)
        },
{
    let q = p.push(c);
    assert(q.drop_last() =~= p);
    assert(q.last() == c);
    lemma_first_dot_bound(p);
    lemma_first_dot_bound(q);
    if digits_and_dot(p) && (is_digit(c) || (first_dot(p) is None && c == '.')) {
        assert forall|i: int| 0 <= i < q.len() implies (is_digit(#[trigger] q[i]) || first_dot(q)
            == Option::Some(i)) by {
            if i < p.len() {
                assert(q[i] == p[i]);
                assert(is_digit(p[i]) || first_dot(p) == Option::Some(i));
            }
        }
        assert(digits_and_dot(q));
    }
    if digits_and_dot(q) {
        assert forall|i: int| 0 <= i < p.len() implies (is_digit(#[trigger] p[i]) || first_dot(p)
            == Option::Some(i)) by {
            assert(q[i] == p[i]);
            assert(is_digit(q[i]) || first_dot(q) == Option::Some(i));
        }
        assert(is_digit(q[p.len() as int]) || first_dot(q) == Option::Some(p.len() as int));
        assert(digits_and_dot(p) && (is_digit(c) || (first_dot(p) is None && c == '.')));
    }
}

/// Reads a number literal. `Ok` exactly when the text is well formed and
/// its value fits; the result is then the denoted number.
pub fn number_from_chars(s: &Vec<char>) -> (r: Result<Number, NumberError>)
    ensures
        match r {
            Result::Ok(n) => num_format(s@) && num_fits(s@) && n == num_of_chars(s@) && num_wf(n),
            Result::Err(NumberError::Format) => !num_format(s@),
            Result::Err(NumberError::TooLarge) => num_format(s@) && !num_fits(s@),
        },
{
    let neg = s.len() > 0 && s[0] == '-';
    let start: usize = if neg {
        1
    } else {
        0
    };
    let ghost t: Seq<char> = num_body(s@);
    proof {
        assert(t =~= s@.skip(start as int));
    }
    if s.len() == start {
        proof {
            assert(t.len() == 0);
        }
        return Result::Err(NumberError::Format);
    }
    let mut i: usize = start;
    let mut mant: u64 = 0;
    let mut fits: bool = true;
    let mut shape: bool = true;
    let mut dot: usize = 0;
    let mut has_dot: bool = false;
    while i < s.len()
        invariant
            start <= i <= s@.len(),
            start <= 1,
            t == s@.skip(start as int),
            t.len() == s@.len() - start,
            shape == digits_and_dot(t.take(i - start)),
            (match first_dot(t.take(i - start)) {
                Option::Some(d) => has_dot && dot == d,
                Option::None => !has_dot,
            }),
            has_dot ==> dot < i - start,
            fits == (mant_of(t.take(i - start)) <= i64::MAX),
            fits ==> mant as int == mant_of(t.take(i - start)),
        decreases s@.len() - i,
    {
        let c = s[i];
        let ghost p = t.take(i - start);
        proof {
            assert(t[i - start] == s@[i as int]);
            assert(p.push(c) =~= t.take(i + 1 - start));
            lemma_step_push(p, c);
            lemma_mant_of_nonneg(p);
        }
        if c == '.' {
            if has_dot {
                shape = false;
            } else {
                has_dot = true;
                dot = i - start;
            }
        } else if '0' <= c && c <= '9' {
            let d: u64 = (c as u64) - ('0' as u64);
            if fits {
                let m10 = mant.checked_mul(10);
                match m10 {
                    Option::Some(m10v) => {
                        let m2 = m10v.checked_add(d);
                        match m2 {
                            Option::Some(m2v) => {
                                if m2v > (i64::MAX as u64) {
                                    fits = false;
                                } else {
                                    mant = m2v;
                                }
                            },
                            Option::None => {
                                fits = false;
                            },
                        }
                    },
                    Option::None => {
                        fits = false;
                    },
                }
            } else {
                proof {
                    assert(mant_of(p.push(c)) == mant_of(p) * 10 + digit_val(c));
                    assert(mant_of(p) * 10 >= mant_of(p)) by (nonlinear_arith)
                        requires
                            mant_of(p) >= 0,
                    ;
                }
            }
        } else {
            shape = false;
        }
        i = i + 1;
    }
    proof {
        assert(t.take(s@.len() - start) =~= t);
    }
    if !shape {
        return Result::Err(NumberError::Format);
    }
    if has_dot && s.len() - start == 1 {
        return Result::Err(NumberError::Format);
    }
    proof {
        assert(num_format(s@));
    }
    if !fits {
        return Result::Err(NumberError::TooLarge);
    }
    let scale_big: usize = if has_dot {
        s.len() - start - 1 - dot
    } else {
        0
    };
    if scale_big > 18 {
        return Result::Err(NumberError::TooLarge);
    }
    let scale: u32 = scale_big as u32;
    proof {
        lemma_mant_of_nonneg(t);
        assert(scale as int == num_scale_of(t));
    }
    let mantissa: i64 = if neg {
        -(mant as i64)
    } else {
        mant as i64
    };
    Result::Ok(Number { mantissa, scale })
}

/// `10^e` as a mathematical integer.
pub open spec fn pow10(e: nat) -> int
    decreases e,
{
    if e == 0 {
        1
    } else {
        10 * pow10((e - 1) as nat)
    }
}

pub proof fn lemma_pow10_values()
    ensures
        forall|e: nat| e <= 18 ==> #[trigger] pow10(e) <= 1000000000000000000,
        forall|e: nat| #[trigger] pow10(e) >= 1,
{
    assert forall|e: nat| pow10(e) >= 1 by {
        lemma_pow10_pos(e);
    }
    assert forall|e: nat| e <= 18 implies #[trigger] pow10(e) <= 1000000000000000000 by {
        lemma_pow10_mono(e, 18);
        reveal_with_fuel(pow10, 19);
        assert(pow10(18) == 1000000000000000000);
    }
}

pub proof fn lemma_pow10_pos(e: nat)
    ensures
        pow10(e) >= 1,
    decreases e,
{
    if e > 0 {
        lemma_pow10_pos((e - 1) as nat);
    }
}

pub proof fn lemma_pow10_mono(a: nat, b: nat)
    requires
        a <= b,
    ensures
        pow10(a) <= pow10(b),
    decreases b,
{
    if a < b {
        lemma_pow10_mono(a, (b - 1) as nat);
        lemma_pow10_pos((b - 1) as nat);
    }
}

/// `10^e` for the small exponents the scale bound allows.
pub fn pow10_u64(e: u32) -> (r: u64)
    requires
        e <= 18,
    ensures
        r as int == pow10(e as nat),
{
    let mut r: u64 = 1;
    let mut i: u32 = 0;
    while i < e
        invariant
            i <= e <= 18,
            r as int == pow10(i as nat),
        decreases e - i,
    {
        proof {
            lemma_pow10_mono(i as nat, 17);
            reveal_with_fuel(pow10, 19);
            lemma_pow10_pos(i as nat);
        }
        r = r * 10;
        i = i + 1;
    }
    r
}

/// The common scale two numbers are aligned to before adding.
pub open spec fn plus_scale(a: Number, b: Number) -> u32 {
    if a.scale >= b.scale {
        a.scale
    } else {
        b.scale
    }
}

/// A mantissa brought to the common scale.
pub open spec fn aligned(x: Number, s: u32) -> int {
    x.mantissa * pow10((s - x.scale) as nat)
}

/// Whether the aligned mantissas and their sum all fit in the mantissa type.
pub open spec fn plus_fits(a: Number, b: Number) -> bool {
    let s = plus_scale(a, b);
    &&& i64::MIN <= aligned(a, s) <= i64::MAX
    &&& i64::MIN <= aligned(b, s) <= i64::MAX
    &&& i64::MIN <= aligned(a, s) + aligned(b, s) <= i64::MAX
}

impl Number {
    /// Exact decimal addition at the larger of the two scales. `Ok`
    /// exactly when the aligned mantissas and their sum stay in range.
    pub fn add(self, other: Number) -> (r: Result<Number, NumberError>)
        requires
            num_wf(self),
            num_wf(other),
        ensures
            match r {
                Result::Ok(n) => plus_fits(self, other) && num_wf(n) && n.scale == plus_scale(
                    self,
                    other,
                ) && n.mantissa as int == aligned(self, n.scale) + aligned(other, n.scale),
                Result::Err(NumberError::TooLarge) => !plus_fits(self, other),
                Result::Err(NumberError::Format) => false,
            },
    {
        let s: u32 = if self.scale >= other.scale {
            self.scale
        } else {
            other.scale
        };
        let pa = pow10_u64(s - self.scale);
        let pb = pow10_u64(s - other.scale);
        proof {
            lemma_pow10_values();
        }
        let ma = self.mantissa.checked_mul(pa as i64);
        let mb = other.mantissa.checked_mul(pb as i64);
        match (ma, mb) {
            (Option::Some(mav), Option::Some(mbv)) => {
                match mav.checked_add(mbv) {
                    Option::Some(sum) => Result::Ok(Number { mantissa: sum, scale: s }),
                    Option::None => Result::Err(NumberError::TooLarge),
                }
            },
            _ => Result::Err(NumberError::TooLarge),
        }
    }
}

} // verus!
