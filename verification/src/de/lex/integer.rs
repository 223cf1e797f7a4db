//! Integer literals: a run of decimal digits followed by a sign.

use vstd::prelude::*;

use crate::de::cursor::{copy_bytes, is_digit};

verus! {

/// Every byte of `s` is an ASCII decimal digit.
pub open spec fn all_digits(s: Seq<u8>) -> bool {
    forall|i: int| 0 <= i < s.len() ==> is_digit(#[trigger] s[i])
}

/// The value of an ASCII decimal digit.
pub open spec fn digit_value(b: u8) -> nat {
    (b - 0x30) as nat
}

/// The value of a run of decimal digits (leading zeros allowed).
pub open spec fn decimal_value(s: Seq<u8>) -> nat
    decreases s.len(),
{
    if s.len() == 0 {
        0
    } else {
        decimal_value(s.drop_last()) * 10 + digit_value(s.last())
    }
}

/// The shortest decimal representation of `n`.
pub open spec fn decimal(n: nat) -> Seq<u8>
    decreases n,
{
    if n < 10 {
        seq![(0x30 + n) as u8]
    } else {
        decimal(n / 10).push((0x30 + n % 10) as u8)
    }
}

/// The decimal representation of `n` is a nonempty run of digits worth `n`.
pub proof fn lemma_decimal(n: nat)
    ensures
        decimal(n).len() >= 1,
        all_digits(decimal(n)),
        decimal_value(decimal(n)) == n,
    decreases n,
{
    if n >= 10 {
        lemma_decimal(n / 10);
        let d = decimal(n);
        assert(d.drop_last() =~= decimal(n / 10));
        assert((n / 10) * 10 + n % 10 == n) by (nonlinear_arith);
        assert(digit_value(d.last()) == n % 10);
        assert forall|i: int| 0 <= i < d.len() implies is_digit(#[trigger] d[i]) by {
            if i < d.len() - 1 {
                assert(d[i] == decimal(n / 10)[i]);
            }
        }
    } else {
        assert(decimal(n).drop_last() =~= Seq::<u8>::empty());
        assert(decimal_value(Seq::<u8>::empty()) == 0);
        assert(decimal_value(decimal(n)) == decimal_value(decimal(n).drop_last()) * 10 + digit_value(decimal(n).last()));
    }
}

/// A prefix of a run of digits is worth at most the whole run.
/// The decimal representation of `n` is a nonempty run of digits worth `n`.
pub proof fn lemma_decimal_value_prefix(s: Seq<u8>, k: int)
    requires
        0 <= k <= s.len(),
    ensures
        decimal_value(s.take(k)) <= decimal_value(s),
    decreases s.len(),
{
    if k < s.len() {
        lemma_decimal_value_prefix(s.drop_last(), k);
        assert(s.drop_last().take(k) =~= s.take(k));
    } else {
        assert(s.take(k) =~= s);
    }
}

/// Appends the decimal representation of `n` to `out`.
pub fn write_decimal(n: u128, out: &mut Vec<u8>)
    ensures
        final(out)@ == old(out)@ + decimal(n as nat),
    decreases n,
{
    if n >= 10 {
        write_decimal(n / 10, out);
    }
    let d: u8 = (n % 10) as u8;
    out.push(0x30u8 + d);
    proof {
        if n >= 10 {
            assert(old(out)@ + decimal(n as nat) =~= old(out)@ + decimal((n / 10) as nat) + seq![(0x30 + n % 10) as u8]);
        } else {
            assert(decimal(n as nat) =~= seq![(0x30 + n) as u8]);
        }
    }
}

/// The decimal representation of `n`.
pub fn to_decimal(n: u128) -> (res: Vec<u8>)
    ensures
        res@ == decimal(n as nat),
{
    let mut out: Vec<u8> = Vec::new();
    write_decimal(n, &mut out);
    proof {
        assert(out@ =~= decimal(n as nat));
    }
    out
}

/// The ways a run of digits can fail to convert to a bounded integer.
#[derive(Debug, Clone, Copy, PartialEq, Eq, Structural)]
pub enum IntErrorKind {
    Empty,
    InvalidDigit,
    PosOverflow,
    NegOverflow,
    Zero,
}

/// Reads a run of digits as an unsigned number no larger than `max`.
pub fn parse_decimal(digits: &[u8], max: u128) -> (res: Result<u128, IntErrorKind>)
    requires
        all_digits(digits@),
    ensures
        digits@.len() == 0 ==> res == Err::<u128, IntErrorKind>(IntErrorKind::Empty),
        digits@.len() > 0 && decimal_value(digits@) <= max ==> res == Ok::<u128, IntErrorKind>(decimal_value(digits@) as u128),
        digits@.len() > 0 && decimal_value(digits@) > max ==> res == Err::<u128, IntErrorKind>(IntErrorKind::PosOverflow),
{
    if digits.len() == 0 {
        return Err(IntErrorKind::Empty);
    }
    let mut v: u128 = 0;
    let mut i: usize = 0;
    while i < digits.len()
        invariant
            i <= digits@.len(),
            all_digits(digits@),
            v == decimal_value(digits@.take(i as int)),
            v <= max,
        decreases digits@.len() - i,
    {
        let d: u128 = (digits[i] - 0x30u8) as u128;
        proof {
            assert(is_digit(digits@[i as int]));
            assert(digits@.take(i + 1).drop_last() =~= digits@.take(i as int));
            assert(decimal_value(digits@.take(i + 1)) == v * 10 + d);
        }
        if d > max || v > (max - d) / 10 {
            proof {
                assert(v * 10 + d > max) by (nonlinear_arith)
                    requires d > max || v > (max - d) / 10, d <= max || d > max;
                lemma_decimal_value_prefix(digits@, i + 1);
            }
            return Err(IntErrorKind::PosOverflow);
        }
        proof {
            assert(v * 10 + d <= max) by (nonlinear_arith)
                requires v <= (max - d) / 10, d <= max;
        }
        v = v * 10 + d;
        i = i + 1;
    }
    proof {
        assert(digits@.take(i as int) =~= digits@);
    }
    Ok(v)
}


/// The mathematical model of an integer literal.
pub struct SpecInt {
    pub positive: bool,
    pub digits: Seq<u8>,
}

/// The value an integer literal denotes.
pub open spec fn int_value(i: SpecInt) -> int {
    if i.positive {
        decimal_value(i.digits) as int
    } else {
        -(decimal_value(i.digits) as int)
    }
}

/// The bytes of an integer literal: its digits, then `+` or `-`.
pub open spec fn encode_int(i: SpecInt) -> Seq<u8> {
    i.digits.push(if i.positive { 0x2bu8 } else { 0x2du8 })
}

/// Converting a literal to an unsigned type whose largest value is `max`.
pub open spec fn to_unsigned_spec(i: SpecInt, max: nat) -> Result<nat, IntErrorKind> {
    if !i.positive {
        Err(IntErrorKind::NegOverflow)
    } else if i.digits.len() == 0 {
        Err(IntErrorKind::Empty)
    } else if decimal_value(i.digits) > max {
        Err(IntErrorKind::PosOverflow)
    } else {
        Ok(decimal_value(i.digits))
    }
}

/// Converting a literal to a signed type whose magnitudes are read as an
/// unsigned type up to `umax`, with largest value `max_pos` and smallest
/// value `-max_neg`.
pub open spec fn to_signed_spec(i: SpecInt, umax: nat, max_pos: nat, max_neg: nat) -> Result<int, IntErrorKind> {
    if i.digits.len() == 0 {
        Err(IntErrorKind::Empty)
    } else if decimal_value(i.digits) > umax {
        Err(IntErrorKind::PosOverflow)
    } else if i.positive {
        if decimal_value(i.digits) > max_pos {
            Err(IntErrorKind::PosOverflow)
        } else {
            Ok(decimal_value(i.digits) as int)
        }
    } else {
        if decimal_value(i.digits) > max_neg {
            Err(IntErrorKind::NegOverflow)
        } else {
            Ok(-(decimal_value(i.digits) as int))
        }
    }
}

/// Why an integer literal did not fit the requested type.
#[derive(Debug, Clone, Copy, PartialEq, Eq, Structural)]
pub struct DecodeIntError {
    pub kind: IntErrorKind,
}

/// An integer literal: decimal digits and a sign.
#[derive(Debug, PartialEq, Eq)]
pub struct Int {
    positive: bool,
    digits: Vec<u8>,
}

impl Clone for Int {
    fn clone(&self) -> (res: Self)
        ensures
            res@ == self@,
    {
        proof {
            use_type_invariant(self);
        }
        Int { positive: self.positive, digits: copy_bytes(self.digits.as_slice()) }
    }
}

impl View for Int {
    type V = SpecInt;

    closed spec fn view(&self) -> SpecInt {
        SpecInt { positive: self.positive, digits: self.digits@ }
    }
}

impl Int {
    /// The digits are all ASCII digits.
    #[verifier::type_invariant]
    spec fn inv(&self) -> bool {
        all_digits(self.digits@)
    }

    /// The literal with the given sign and digits, which must all be ASCII
    /// digits.
    pub fn new(positive: bool, digits: Vec<u8>) -> (res: Self)
        requires
            all_digits(digits@),
        ensures
            res@ == (SpecInt { positive, digits: digits@ }),
    {
        Self { positive, digits }
    }

    /// Whether the literal is marked positive (`+`).
    pub fn positive(&self) -> (res: bool)
        ensures
            res == self@.positive,
    {
        self.positive
    }


    /// The literal's digits.
    pub fn digits(&self) -> (res: &[u8])
        ensures
            res@ == self@.digits,
    {
        self.digits.as_slice()
    }

    /// The literal with its digits in an owned buffer.
    pub fn digits_into(self) -> (res: Int)
        ensures
            res@ == self@,
    {
        proof {
            use_type_invariant(&self);
        }
        Int { positive: self.positive, digits: self.digits }
    }

    /// The literal's bytes: digits then sign.
    pub fn into_bytes(self) -> (res: Vec<u8>)
        ensures
            res@ == encode_int(self@),
    {
        let mut digits = self.digits;
        digits.push(if self.positive { 0x2bu8 } else { 0x2du8 });
        digits
    }

    /// The literal, owning its digits.
    pub fn into_static(self) -> (res: Int)
        ensures
            res@ == self@,
    {
        self
    }

    /// The literal's bytes: digits then sign.
    pub fn encode(&self) -> (res: Vec<u8>)
        ensures
            res@ == encode_int(self@),
    {
        let mut res: Vec<u8> = Vec::new();
        self.encode_into(&mut res);
        proof {
            assert(res@ =~= encode_int(self@));
        }
        res
    }

    /// Appends the literal's bytes to `w` and returns how many were written.
    pub fn encode_into(&self, w: &mut Vec<u8>) -> (res: usize)
        ensures
            final(w)@ == old(w)@ + encode_int(self@),
            res == encode_int(self@).len(),
    {
        let start = w.len();
        let mut i: usize = 0;
        while i < self.digits.len()
            invariant
                i <= self.digits@.len(),
                start == old(w)@.len(),
                w@ == old(w)@ + self.digits@.take(i as int),
            decreases self.digits@.len() - i,
        {
            w.push(self.digits[i]);
            i = i + 1;
            proof {
                assert(self.digits@.take(i as int) =~= self.digits@.take(i - 1).push(self.digits@[i - 1]));
            }
        }
        w.push(if self.positive { 0x2bu8 } else { 0x2du8 });
        proof {
            assert(self.digits@.take(i as int) =~= self.digits@);
            assert(w@ =~= old(w)@ + encode_int(self@));
        }
        w.len() - start
    }

    /// The literal for a non-negative number, which is marked positive.
    pub fn from_unsigned(val: u128) -> (res: Int)
        ensures
            res@ == (SpecInt { positive: true, digits: decimal(val as nat) }),
    {
        proof {
            lemma_decimal(val as nat);
        }
        Int { positive: true, digits: to_decimal(val) }
    }

    /// The literal for a signed number. Only numbers greater than zero are
    /// marked positive, so zero is written `0-`.
    pub fn from_signed(val: i128) -> (res: Int)
        ensures
            res@ == (SpecInt { positive: val > 0, digits: decimal((if val >= 0 { val as int } else { -(val as int) }) as nat) }),
    {
        let mag: u128 = if val >= 0 { val as u128 } else if val == i128::MIN {
            0x8000_0000_0000_0000_0000_0000_0000_0000u128
        } else {
            (-val) as u128
        };
        proof {
            lemma_decimal(mag as nat);
        }
        Int { positive: val > 0, digits: to_decimal(mag) }
    }

    /// Converts to an unsigned type whose largest value is `max`.
    pub fn to_unsigned(&self, max: u128) -> (res: Result<u128, DecodeIntError>)
        ensures
            match to_unsigned_spec(self@, max as nat) {
                Ok(v) => res == Ok::<u128, DecodeIntError>(v as u128),
                Err(k) => res == Err::<u128, DecodeIntError>(DecodeIntError { kind: k }),
            },
    {
        proof {
            use_type_invariant(self);
        }
        if !self.positive {
            return Err(DecodeIntError { kind: IntErrorKind::NegOverflow });
        }
        match parse_decimal(self.digits.as_slice(), max) {
            Ok(v) => Ok(v),
            Err(kind) => Err(DecodeIntError { kind }),
        }
    }

    /// Converts to a signed type: the magnitude is read as an unsigned
    /// number up to `umax`, then must be at most `max_pos` for a positive
    /// literal and at most `max_neg` for a negative one.
    pub fn to_signed(&self, umax: u128, max_pos: u128, max_neg: u128) -> (res: Result<i128, DecodeIntError>)
        requires
            max_pos <= i128::MAX,
            max_neg <= i128::MAX + 1,
        ensures
            match to_signed_spec(self@, umax as nat, max_pos as nat, max_neg as nat) {
                Ok(v) => res == Ok::<i128, DecodeIntError>(v as i128),
                Err(k) => res == Err::<i128, DecodeIntError>(DecodeIntError { kind: k }),
            },
    {
        proof {
            use_type_invariant(self);
        }
        let val = match parse_decimal(self.digits.as_slice(), umax) {
            Ok(v) => v,
            Err(kind) => return Err(DecodeIntError { kind }),
        };
        if self.positive {
            if val > max_pos {
                return Err(DecodeIntError { kind: IntErrorKind::PosOverflow });
            }
            Ok(val as i128)
        } else {
            if val > max_neg {
                return Err(DecodeIntError { kind: IntErrorKind::NegOverflow });
            }
            if val == 0x8000_0000_0000_0000_0000_0000_0000_0000u128 {
                Ok(i128::MIN)
            } else {
                Ok(-(val as i128))
            }
        }
    }
}

} // verus!
