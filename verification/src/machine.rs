//! What every machine that runs a module owes its instructions: how many
//! values an instruction takes from the stack and leaves there, what the
//! instructions that can fail do with every value, and what the
//! conversions between integers, booleans and reals give. A real is the
//! bit pattern of a double.

use vstd::prelude::*;
use vstd::arithmetic::power2::{
    lemma2_to64, lemma2_to64_rest, lemma_pow2_adds, lemma_pow2_pos, lemma_pow2_strictly_increases,
    lemma_pow2_unfold, pow2,
};
use crate::bytecode::Bytecode;

verus! {

/// Why a program ends before its time.
#[derive(PartialEq, Eq, Structural, Debug, Clone, Copy)]
pub enum PanicCode {
    /// An index is negative or not below the array's length.
    Bounds,
    /// An integer that is neither 0 nor 1 was to become a boolean.
    Range,
    /// A real that is no number, or whose whole part does not fit in 64
    /// bits, was to become an integer.
    InvalidConversion,
}

impl PanicCode {
    /// The operand of the `Panic` instruction that reports this.
    pub open spec fn spec_code(self) -> u64 {
        match self {
            PanicCode::Bounds => 1,
            PanicCode::Range => 2,
            PanicCode::InvalidConversion => 3,
        }
    }

    /// The operand of the `Panic` instruction that reports this.
    pub fn code(&self) -> (code: u64)
        ensures
            code == self.spec_code(),
    {
        match self {
            PanicCode::Bounds => 1,
            PanicCode::Range => 2,
            PanicCode::InvalidConversion => 3,
        }
    }
}

/// How many values an instruction takes from the stack and how many it
/// leaves there.
#[derive(PartialEq, Eq, Structural, Debug, Clone, Copy)]
pub struct StackEffect {
    pub pops: u64,
    pub pushes: u64,
}

/// The effect of an instruction on the stack. A call takes the arguments
/// of the function that it calls, which the instruction does not tell, and
/// leaves what the function returns: it has no effect of its own.
pub open spec fn effect_of(instruction: Bytecode) -> Option<StackEffect> {
    match instruction {
        Bytecode::IntConst { .. } => Some(StackEffect { pops: 0, pushes: 1 }),
        Bytecode::RealConst { .. } => Some(StackEffect { pops: 0, pushes: 1 }),
        Bytecode::Load { .. } => Some(StackEffect { pops: 0, pushes: 1 }),
        Bytecode::Store { .. } => Some(StackEffect { pops: 1, pushes: 0 }),
        Bytecode::AddressOf { .. } => Some(StackEffect { pops: 0, pushes: 1 }),
        Bytecode::Dup => Some(StackEffect { pops: 1, pushes: 2 }),
        Bytecode::Drop => Some(StackEffect { pops: 1, pushes: 0 }),
        Bytecode::BinOp { .. } => Some(StackEffect { pops: 2, pushes: 1 }),
        Bytecode::StoreAddress => Some(StackEffect { pops: 2, pushes: 0 }),
        Bytecode::LoadAddress => Some(StackEffect { pops: 1, pushes: 1 }),
        Bytecode::AllocRecord { .. } => Some(StackEffect { pops: 0, pushes: 1 }),
        Bytecode::AllocArray { .. } => Some(StackEffect { pops: 0, pushes: 1 }),
        Bytecode::ArraySize => Some(StackEffect { pops: 1, pushes: 1 }),
        Bytecode::GetIndex => Some(StackEffect { pops: 2, pushes: 1 }),
        Bytecode::GetField { .. } => Some(StackEffect { pops: 1, pushes: 1 }),
        Bytecode::Label { .. } => Some(StackEffect { pops: 0, pushes: 0 }),
        Bytecode::Jump { .. } => Some(StackEffect { pops: 0, pushes: 0 }),
        Bytecode::JumpZero { .. } => Some(StackEffect { pops: 1, pushes: 0 }),
        Bytecode::JumpNotZero { .. } => Some(StackEffect { pops: 1, pushes: 0 }),
        Bytecode::Enter { .. } => Some(StackEffect { pops: 0, pushes: 0 }),
        Bytecode::Ret => Some(StackEffect { pops: 1, pushes: 0 }),
        Bytecode::Call { .. } => None,
        Bytecode::Print { .. } => Some(StackEffect { pops: 1, pushes: 0 }),
        Bytecode::Panic { .. } => Some(StackEffect { pops: 0, pushes: 0 }),
        Bytecode::IntToBool => Some(StackEffect { pops: 1, pushes: 1 }),
        Bytecode::RealToInt => Some(StackEffect { pops: 1, pushes: 1 }),
        Bytecode::IntToReal => Some(StackEffect { pops: 1, pushes: 1 }),
    }
}

/// The effect of an instruction on the stack, or nothing for a call.
pub fn stack_effect(instruction: &Bytecode) -> (effect: Option<StackEffect>)
    ensures
        effect == effect_of(*instruction),
{
    match instruction {
        Bytecode::IntConst { .. }
        | Bytecode::RealConst { .. }
        | Bytecode::Load { .. }
        | Bytecode::AddressOf { .. }
        | Bytecode::AllocRecord { .. }
        | Bytecode::AllocArray { .. } => Some(StackEffect { pops: 0, pushes: 1 }),
        Bytecode::Store { .. }
        | Bytecode::Drop
        | Bytecode::JumpZero { .. }
        | Bytecode::JumpNotZero { .. }
        | Bytecode::Ret
        | Bytecode::Print { .. } => Some(StackEffect { pops: 1, pushes: 0 }),
        Bytecode::Dup => Some(StackEffect { pops: 1, pushes: 2 }),
        Bytecode::BinOp { .. } | Bytecode::GetIndex => Some(StackEffect { pops: 2, pushes: 1 }),
        Bytecode::StoreAddress => Some(StackEffect { pops: 2, pushes: 0 }),
        Bytecode::LoadAddress
        | Bytecode::ArraySize
        | Bytecode::GetField { .. }
        | Bytecode::IntToBool
        | Bytecode::RealToInt
        | Bytecode::IntToReal => Some(StackEffect { pops: 1, pushes: 1 }),
        Bytecode::Label { .. }
        | Bytecode::Jump { .. }
        | Bytecode::Enter { .. }
        | Bytecode::Panic { .. } => Some(StackEffect { pops: 0, pushes: 0 }),
        Bytecode::Call { .. } => None,
    }
}

/// The effect of a call of a function with `arity` arguments: the
/// arguments are taken and the result is left.
pub fn call_effect(arity: u64) -> (effect: StackEffect)
    ensures
        effect == (StackEffect { pops: arity, pushes: 1 }),
{
    StackEffect { pops: arity, pushes: 1 }
}

/// `IntToBool`: 0 is false and 1 is true; every other integer ends the
/// program.
pub fn int_to_bool(value: i64) -> (result: Result<bool, PanicCode>)
    ensures
        value == 0 ==> result == Ok::<bool, PanicCode>(false),
        value == 1 ==> result == Ok::<bool, PanicCode>(true),
        value != 0 && value != 1 ==> result == Err::<bool, PanicCode>(PanicCode::Range),
{
    if value == 0 {
        Ok(false)
    } else if value == 1 {
        Ok(true)
    } else {
        Err(PanicCode::Range)
    }
}

/// The conversion of a boolean to an integer, which costs no instruction:
/// a boolean is the integer 1 or 0.
pub fn bool_to_int(value: bool) -> (result: i64)
    ensures
        result == if value {
            1i64
        } else {
            0i64
        },
{
    if value {
        1
    } else {
        0
    }
}

/// `GetIndex`: the place of the element for an index that is not negative
/// and below the array's length; every other index ends the program.
pub fn check_index(length: u64, index: i64) -> (result: Result<u64, PanicCode>)
    ensures
        0 <= index < length ==> result == Ok::<u64, PanicCode>(index as u64),
        !(0 <= index < length) ==> result == Err::<u64, PanicCode>(PanicCode::Bounds),
{
    if index < 0 {
        Err(PanicCode::Bounds)
    } else if index as u64 >= length {
        Err(PanicCode::Bounds)
    } else {
        Ok(index as u64)
    }
}

// ---------------------------------------------------------------------
// Reals
// ---------------------------------------------------------------------
/// Whether the sign bit of a double is set.
pub open spec fn real_negative(bits: u64) -> bool {
    bits >= 0x8000_0000_0000_0000
}

/// The 11 bits of a double's exponent.
pub open spec fn real_exponent(bits: u64) -> int {
    (bits as int / 0x10_0000_0000_0000) % 0x800
}

/// The 52 bits of a double's fraction.
pub open spec fn real_fraction(bits: u64) -> int {
    bits as int % 0x10_0000_0000_0000
}

/// Neither an infinity nor a NaN.
pub open spec fn real_finite(bits: u64) -> bool {
    real_exponent(bits) != 0x7ff
}

/// The whole number that a finite double's digits are: the fraction, with
/// the leading one that a normal number does not store.
pub open spec fn real_significand(bits: u64) -> int {
    if real_exponent(bits) == 0 {
        real_fraction(bits)
    } else {
        real_fraction(bits) + 0x10_0000_0000_0000
    }
}

/// The power of two that a finite double's significand is multiplied by:
/// the double's magnitude is `real_significand * 2^real_scale`.
pub open spec fn real_scale(bits: u64) -> int {
    if real_exponent(bits) == 0 {
        -1074
    } else {
        real_exponent(bits) - 1075
    }
}

/// The whole part of a finite double's magnitude.
pub open spec fn real_whole_magnitude(bits: u64) -> int {
    if real_scale(bits) >= 0 {
        real_significand(bits) * pow2(real_scale(bits) as nat)
    } else {
        real_significand(bits) / (pow2((-real_scale(bits)) as nat) as int)
    }
}

/// A finite double without what is behind its point: the number is
/// rounded toward zero.
pub open spec fn real_truncated(bits: u64) -> int {
    if real_negative(bits) {
        -real_whole_magnitude(bits)
    } else {
        real_whole_magnitude(bits)
    }
}

/// What `RealToInt` does with a double.
pub open spec fn real_to_int_model(bits: u64) -> Result<i64, PanicCode> {
    if real_finite(bits) && i64::MIN <= real_truncated(bits) <= i64::MAX {
        Ok(real_truncated(bits) as i64)
    } else {
        Err(PanicCode::InvalidConversion)
    }
}

/// Two to the power of `e`, for an `e` below 64.
fn power_of_two(e: u64) -> (power: u64)
    requires
        e < 64,
    ensures
        power == pow2(e as nat),
{
    proof {
        lemma2_to64();
    }
    let mut power: u64 = 1;
    let mut i: u64 = 0;
    while i < e
        invariant
            i <= e < 64,
            power == pow2(i as nat),
        decreases e - i,
    {
        proof {
            lemma_pow2_unfold((i + 1) as nat);
            lemma_pow2_strictly_increases((i + 1) as nat, 64);
            lemma2_to64_rest();
        }
        power = power * 2;
        i += 1;
    }
    power
}

/// `RealToInt`: the double, given by its bit pattern, without what is
/// behind its point. A NaN, an infinity and a number whose whole part does
/// not fit in 64 bits end the program.
pub fn real_to_int(bits: u64) -> (result: Result<i64, PanicCode>)
    ensures
        result == real_to_int_model(bits),
{
    let negative = bits >= 0x8000_0000_0000_0000;
    let exponent: u64 = (bits / 0x10_0000_0000_0000) % 0x800;
    let fraction: u64 = bits % 0x10_0000_0000_0000;
    if exponent == 0x7ff {
        return Err(PanicCode::InvalidConversion);
    }
    proof {
        lemma2_to64();
        lemma2_to64_rest();
    }
    if exponent < 1023 {
        proof {
            let shift = (-real_scale(bits)) as nat;
            if shift > 53 {
                lemma_pow2_strictly_increases(53, shift);
            }
            vstd::arithmetic::div_mod::lemma_basic_div(real_significand(bits), pow2(shift) as int);
        }
        return Ok(0);
    }
    let significand: u64 = fraction + 0x10_0000_0000_0000;
    if exponent > 1086 {
        proof {
            let shift = real_scale(bits) as nat;
            if shift > 12 {
                lemma_pow2_strictly_increases(12, shift);
            }
            assert(real_significand(bits) * pow2(shift) >= 0x10_0000_0000_0000 * 0x1000)
                by (nonlinear_arith)
                requires
                    real_significand(bits) >= 0x10_0000_0000_0000,
                    pow2(shift) >= 0x1000,
            ;
        }
        return Err(PanicCode::InvalidConversion);
    }
    let magnitude: u64 = if exponent >= 1075 {
        let power = power_of_two(exponent - 1075);
        proof {
            let shift = (exponent - 1075) as nat;
            if shift < 11 {
                lemma_pow2_strictly_increases(shift, 11);
            }
            assert(significand * power <= 0x1f_ffff_ffff_ffff * 0x800) by (nonlinear_arith)
                requires
                    significand <= 0x1f_ffff_ffff_ffff,
                    power <= 0x800,
            ;
        }
        significand * power
    } else {
        let power = power_of_two(1075 - exponent);
        proof {
            lemma_pow2_pos((1075 - exponent) as nat);
        }
        significand / power
    };
    if negative {
        if magnitude > 0x8000_0000_0000_0000 {
            Err(PanicCode::InvalidConversion)
        } else if magnitude == 0x8000_0000_0000_0000 {
            Ok(i64::MIN)
        } else {
            Ok(-(magnitude as i64))
        }
    } else {
        if magnitude > 0x7fff_ffff_ffff_ffff {
            Err(PanicCode::InvalidConversion)
        } else {
            Ok(magnitude as i64)
        }
    }
}

/// Rounding is toward zero: the whole part of a double is never further
/// from zero than the double, and a double and its negative have opposite
/// whole parts.
pub proof fn lemma_truncation_toward_zero(bits: u64)
    requires
        real_finite(bits),
        bits < 0x8000_0000_0000_0000,
    ensures
        real_truncated(bits) >= 0,
        real_scale(bits) < 0 ==> real_truncated(bits) * pow2((-real_scale(bits)) as nat)
            <= real_significand(bits) < (real_truncated(bits) + 1) * pow2(
            (-real_scale(bits)) as nat,
        ),
        real_truncated((bits + 0x8000_0000_0000_0000) as u64) == -real_truncated(bits),
{
    if real_scale(bits) >= 0 {
        lemma_pow2_pos(real_scale(bits) as nat);
    } else {
        let divisor = pow2((-real_scale(bits)) as nat) as int;
        lemma_pow2_pos((-real_scale(bits)) as nat);
        vstd::arithmetic::div_mod::lemma_fundamental_div_mod(real_significand(bits), divisor);
        let whole = real_significand(bits) / divisor;
        assert(whole * divisor == divisor * whole) by (nonlinear_arith);
        assert((whole + 1) * divisor == whole * divisor + divisor) by (nonlinear_arith);
    }
}

/// The place of the highest bit of a positive number, counted from 0.
pub open spec fn floor_log2(m: nat) -> nat
    decreases m,
{
    if m <= 1 {
        0
    } else {
        1 + floor_log2(m / 2)
    }
}

/// The 53 bits that stand for a positive whole number in a double, and
/// the power of two of the highest of them. A number of up to 53 bits is
/// kept as it is. Of a longer number the highest 53 bits are kept, and
/// they are rounded to the nearest such number, to the even one of two
/// that are as near.
pub open spec fn rounded(m: nat) -> (nat, nat) {
    let e = floor_log2(m);
    if e <= 52 {
        (m * pow2((52 - e) as nat), e)
    } else {
        let unit = pow2((e - 52) as nat);
        let kept = m / unit;
        let rest = m % unit;
        let up = 2 * rest > unit || (2 * rest == unit && kept % 2 == 1);
        let significand = if up {
            kept + 1
        } else {
            kept
        };
        if significand == 0x20_0000_0000_0000 {
            (0x10_0000_0000_0000, e + 1)
        } else {
            (significand, e)
        }
    }
}

/// The magnitude of an integer.
pub open spec fn magnitude_of(value: i64) -> nat {
    if value < 0 {
        (-value) as nat
    } else {
        value as nat
    }
}

/// What `IntToReal` does with an integer: the bit pattern of the double
/// that is the integer, or the nearest to it.
pub open spec fn int_to_real_model(value: i64) -> u64 {
    if value == 0 {
        0
    } else {
        let (significand, e) = rounded(magnitude_of(value));
        ((if value < 0 {
            0x8000_0000_0000_0000int
        } else {
            0int
        }) + (e + 1023) * 0x10_0000_0000_0000 + (significand - 0x10_0000_0000_0000)) as u64
    }
}

/// A positive number lies between the power of two of its highest bit and
/// the next power of two.
pub proof fn lemma_floor_log2(m: nat)
    requires
        m >= 1,
    ensures
        pow2(floor_log2(m)) <= m < pow2(floor_log2(m) + 1),
    decreases m,
{
    lemma2_to64();
    if m > 1 {
        lemma_floor_log2(m / 2);
        let e = floor_log2(m / 2);
        lemma_pow2_unfold(e + 1);
        lemma_pow2_unfold(e + 2);
    }
}

/// Powers of two grow with their exponents.
proof fn lemma_pow2_grows(a: nat, b: nat)
    requires
        a <= b,
    ensures
        pow2(a) <= pow2(b),
{
    if a < b {
        lemma_pow2_strictly_increases(a, b);
    }
}

/// `IntToReal`: the double that is the integer, given by its bit pattern.
/// An integer of more than 53 bits becomes the nearest double.
pub fn int_to_real(value: i64) -> (bits: u64)
    ensures
        bits == int_to_real_model(value),
{
    if value == 0 {
        return 0;
    }
    let negative = value < 0;
    let magnitude: u64 = if value == i64::MIN {
        0x8000_0000_0000_0000
    } else if negative {
        (-value) as u64
    } else {
        value as u64
    };
    proof {
        lemma2_to64();
        lemma2_to64_rest();
        lemma_floor_log2(magnitude as nat);
    }
    let mut e: u64 = 0;
    let mut rest: u64 = magnitude;
    while rest > 1
        invariant
            rest >= 1,
            e <= 63,
            floor_log2(magnitude as nat) == e + floor_log2(rest as nat),
            magnitude >= pow2(floor_log2(magnitude as nat)),
            magnitude <= 0x8000_0000_0000_0000,
            pow2(63) == 0x8000_0000_0000_0000,
        decreases rest,
    {
        proof {
            let whole = floor_log2(magnitude as nat);
            if e == 63 {
                lemma_pow2_grows(64, whole);
                lemma2_to64_rest();
            }
        }
        rest = rest / 2;
        e += 1;
    }
    let (significand, exponent): (u64, u64) = if e <= 52 {
        let power = power_of_two(52 - e);
        proof {
            lemma_pow2_adds(e as nat, (52 - e) as nat);
            lemma_pow2_adds((e + 1) as nat, (52 - e) as nat);
            assert(magnitude * power < pow2((e + 1) as nat) * power) by (nonlinear_arith)
                requires
                    magnitude < pow2((e + 1) as nat),
                    power > 0,
            ;
            assert(magnitude * power >= pow2(e as nat) * power) by (nonlinear_arith)
                requires
                    magnitude >= pow2(e as nat),
                    power > 0,
            ;
        }
        (magnitude * power, e)
    } else {
        let unit = power_of_two(e - 52);
        let kept = magnitude / unit;
        let rest = magnitude % unit;
        let up = rest > unit - rest || (rest == unit - rest && kept % 2 == 1);
        proof {
            vstd::arithmetic::div_mod::lemma_fundamental_div_mod(magnitude as int, unit as int);
            assert(kept >= 0x10_0000_0000_0000) by (nonlinear_arith)
                requires
                    magnitude == unit * kept + rest,
                    rest < unit,
                    magnitude >= 0x10_0000_0000_0000 * unit,
                    unit > 0,
            ;
            assert(kept < 0x20_0000_0000_0000) by (nonlinear_arith)
                requires
                    magnitude == unit * kept + rest,
                    rest >= 0,
                    magnitude < 0x20_0000_0000_0000 * unit,
                    unit > 0,
            ;
        }
        let significand = if up {
            kept + 1
        } else {
            kept
        };
        if significand == 0x20_0000_0000_0000 {
            (0x10_0000_0000_0000, e + 1)
        } else {
            (significand, e)
        }
    };
    let sign: u64 = if negative {
        0x8000_0000_0000_0000
    } else {
        0
    };
    sign + (exponent + 1023) * 0x10_0000_0000_0000 + (significand - 0x10_0000_0000_0000)
}

/// An integer of up to 53 bits, and 2 to the power of 53 itself, comes
/// back from the double that it becomes.
pub proof fn lemma_int_real_round_trip(value: i64)
    requires
        -0x20_0000_0000_0000 <= value <= 0x20_0000_0000_0000,
    ensures
        real_to_int_model(int_to_real_model(value)) == Ok::<i64, PanicCode>(value),
{
    lemma2_to64();
    lemma2_to64_rest();
    let bits = int_to_real_model(value);
    if value == 0 {
        assert(real_whole_magnitude(bits) == 0) by {
            lemma_pow2_pos(1074);
        }
    } else {
        let m = magnitude_of(value);
        lemma_floor_log2(m);
        let e = floor_log2(m);
        if e > 53 {
            lemma_pow2_grows(54, e);
        }
        if e == 53 {
            assert(real_whole_magnitude(bits) == 0x10_0000_0000_0000 * pow2(1));
        } else {
            let power = pow2((52 - e) as nat);
            lemma_pow2_adds(e, (52 - e) as nat);
            lemma_pow2_adds(e + 1, (52 - e) as nat);
            let significand = m * power;
            assert(significand < pow2(e + 1) * power) by (nonlinear_arith)
                requires
                    m < pow2(e + 1),
                    power > 0,
                    significand == m * power,
            ;
            assert(significand >= pow2(e) * power) by (nonlinear_arith)
                requires
                    m >= pow2(e),
                    power > 0,
                    significand == m * power,
            ;
            if e == 52 {
                assert(significand * pow2(0) == m) by (nonlinear_arith)
                    requires
                        significand == m * 1,
                        pow2(0) == 1,
                ;
            } else {
                vstd::arithmetic::div_mod::lemma_div_by_multiple(m as int, power as int);
            }
        }
    }
}

} // verus!
