use imperative_compiler::bytecode::{Bytecode, Location, TypeId};
use imperative_compiler::machine::{
    bool_to_int, call_effect, check_index, int_to_bool, int_to_real, real_to_int, stack_effect,
    PanicCode, StackEffect,
};
use imperative_compiler::operators::SemanticBinaryOperator;

#[test]
fn int_to_bool_accepts_zero_and_one() {
    assert_eq!(int_to_bool(0), Ok(false));
    assert_eq!(int_to_bool(1), Ok(true));
    assert_eq!(int_to_bool(2), Err(PanicCode::Range));
    assert_eq!(int_to_bool(-1), Err(PanicCode::Range));
    assert_eq!(bool_to_int(true), 1);
    assert_eq!(bool_to_int(false), 0);
}

#[test]
fn real_to_int_truncates_toward_zero() {
    assert_eq!(real_to_int(2.9f64.to_bits()), Ok(2));
    assert_eq!(real_to_int((-2.9f64).to_bits()), Ok(-2));
    assert_eq!(real_to_int(0.0f64.to_bits()), Ok(0));
    assert_eq!(real_to_int((-0.0f64).to_bits()), Ok(0));
    assert_eq!(real_to_int(0.999f64.to_bits()), Ok(0));
    assert_eq!(real_to_int(1.0f64.to_bits()), Ok(1));
    assert_eq!(real_to_int(f64::MIN_POSITIVE.to_bits()), Ok(0));
    assert_eq!(real_to_int(5e-324f64.to_bits()), Ok(0));
    assert_eq!(real_to_int(123456789.75f64.to_bits()), Ok(123456789));
    assert_eq!(real_to_int(9007199254740993.0f64.to_bits()), Ok(9007199254740992));
    assert_eq!(real_to_int(4611686018427387904.0f64.to_bits()), Ok(1 << 62));
    assert_eq!(real_to_int((-9223372036854775808.0f64).to_bits()), Ok(i64::MIN));
}

#[test]
fn real_to_int_agrees_with_the_cast_in_range() {
    let mut value = 1.0e-3f64;
    while value < 9.0e18 {
        assert_eq!(real_to_int(value.to_bits()), Ok(value as i64), "{value}");
        assert_eq!(real_to_int((-value).to_bits()), Ok((-value) as i64), "-{value}");
        value *= 1.7;
    }
}

#[test]
fn real_to_int_rejects_what_is_no_integer() {
    assert_eq!(real_to_int(f64::NAN.to_bits()), Err(PanicCode::InvalidConversion));
    assert_eq!(real_to_int(f64::INFINITY.to_bits()), Err(PanicCode::InvalidConversion));
    assert_eq!(real_to_int(f64::NEG_INFINITY.to_bits()), Err(PanicCode::InvalidConversion));
    assert_eq!(real_to_int(9223372036854775808.0f64.to_bits()), Err(PanicCode::InvalidConversion));
    assert_eq!(real_to_int((-9223372036854777856.0f64).to_bits()), Err(PanicCode::InvalidConversion));
    assert_eq!(real_to_int(1.0e300f64.to_bits()), Err(PanicCode::InvalidConversion));
    assert_eq!(real_to_int(f64::MAX.to_bits()), Err(PanicCode::InvalidConversion));
}

#[test]
fn index_of_an_array_of_three() {
    assert_eq!(check_index(3, 0), Ok(0));
    assert_eq!(check_index(3, 1), Ok(1));
    assert_eq!(check_index(3, 2), Ok(2));
    assert_eq!(check_index(3, 3), Err(PanicCode::Bounds));
    assert_eq!(check_index(3, -1), Err(PanicCode::Bounds));
    assert_eq!(check_index(0, 0), Err(PanicCode::Bounds));
}

#[test]
fn panic_codes_differ() {
    assert_eq!(PanicCode::Bounds.code(), 1);
    assert_eq!(PanicCode::Range.code(), 2);
    assert_eq!(PanicCode::InvalidConversion.code(), 3);
}

#[test]
fn stack_effects() {
    let effect = |pops, pushes| Some(StackEffect { pops, pushes });
    assert_eq!(stack_effect(&Bytecode::IntConst { value: 1 }), effect(0, 1));
    assert_eq!(stack_effect(&Bytecode::RealConst { bits: 0 }), effect(0, 1));
    assert_eq!(stack_effect(&Bytecode::Load { loc: Location::Local(0) }), effect(0, 1));
    assert_eq!(stack_effect(&Bytecode::Store { loc: Location::Local(0) }), effect(1, 0));
    assert_eq!(stack_effect(&Bytecode::AddressOf { loc: Location::Global(0) }), effect(0, 1));
    assert_eq!(stack_effect(&Bytecode::Dup), effect(1, 2));
    assert_eq!(stack_effect(&Bytecode::Drop), effect(1, 0));
    assert_eq!(
        stack_effect(&Bytecode::BinOp { op: SemanticBinaryOperator::IntAdd }),
        effect(2, 1)
    );
    assert_eq!(stack_effect(&Bytecode::StoreAddress), effect(2, 0));
    assert_eq!(stack_effect(&Bytecode::LoadAddress), effect(1, 1));
    assert_eq!(stack_effect(&Bytecode::AllocRecord { size: 16 }), effect(0, 1));
    assert_eq!(stack_effect(&Bytecode::AllocArray { element_size: 8, size: 3 }), effect(0, 1));
    assert_eq!(stack_effect(&Bytecode::ArraySize), effect(1, 1));
    assert_eq!(stack_effect(&Bytecode::GetIndex), effect(2, 1));
    assert_eq!(stack_effect(&Bytecode::GetField { field_offset: 8 }), effect(1, 1));
    assert_eq!(stack_effect(&Bytecode::Label { id: 1 }), effect(0, 0));
    assert_eq!(stack_effect(&Bytecode::Jump { label: 1 }), effect(0, 0));
    assert_eq!(stack_effect(&Bytecode::JumpZero { label: 1 }), effect(1, 0));
    assert_eq!(stack_effect(&Bytecode::JumpNotZero { label: 1 }), effect(1, 0));
    assert_eq!(stack_effect(&Bytecode::Enter { arguments_count: 1, local_count: 1 }), effect(0, 0));
    assert_eq!(stack_effect(&Bytecode::Ret), effect(1, 0));
    assert_eq!(stack_effect(&Bytecode::Call { function_label: 1 }), None);
    assert_eq!(stack_effect(&Bytecode::Print { type_id: TypeId(0) }), effect(1, 0));
    assert_eq!(stack_effect(&Bytecode::Panic { code: 1 }), effect(0, 0));
    assert_eq!(stack_effect(&Bytecode::IntToBool), effect(1, 1));
    assert_eq!(stack_effect(&Bytecode::RealToInt), effect(1, 1));
    assert_eq!(stack_effect(&Bytecode::IntToReal), effect(1, 1));
    assert_eq!(call_effect(3), StackEffect { pops: 3, pushes: 1 });
}

#[test]
fn int_to_real_is_exact_where_it_can_be() {
    for value in [0i64, 1, -1, 2, 3, -7, 1 << 52, (1 << 53) - 1, 1 << 53, -(1 << 53), 1 << 62, i64::MIN] {
        assert_eq!(int_to_real(value), (value as f64).to_bits(), "{value}");
        assert_eq!(real_to_int(int_to_real(value)), Ok(value), "{value}");
    }
    assert_eq!(int_to_real(1), 1.0f64.to_bits());
    assert_eq!(int_to_real(-2), (-2.0f64).to_bits());
}

#[test]
fn int_to_real_rounds_to_the_nearest_even() {
    let base = 1i64 << 53;
    assert_eq!(int_to_real(base + 1), (base as f64).to_bits());
    assert_eq!(int_to_real(base + 2), ((base + 2) as f64).to_bits());
    assert_eq!(int_to_real(base + 3), ((base + 4) as f64).to_bits());
    assert_eq!(int_to_real(i64::MAX), 9223372036854775808.0f64.to_bits());
    let mut value: i64 = 1;
    for step in 0..4000u32 {
        for candidate in [value, -value, value.wrapping_add(1), value.wrapping_sub(1)] {
            assert_eq!(int_to_real(candidate), (candidate as f64).to_bits(), "{candidate}");
        }
        value = value.wrapping_mul(6364136223846793005).wrapping_add(1442695040888963407 + step as i64);
    }
    for shift in 0..63 {
        for delta in -3i64..=3 {
            let candidate = (1i64 << shift).wrapping_add(delta);
            assert_eq!(int_to_real(candidate), (candidate as f64).to_bits(), "{candidate}");
            let half = (3i64 << shift).wrapping_add(delta);
            assert_eq!(int_to_real(half), (half as f64).to_bits(), "{half}");
        }
    }
}
