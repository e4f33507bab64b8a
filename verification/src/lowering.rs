//! Lowering: from typed expressions to instructions of the stack machine.
//!
//! Every value on the stack and every field of a record takes one slot of
//! 8 bytes: a number, or a reference to a record or an array.

use vstd::prelude::*;
use std::rc::Rc;
use crate::ast::{
    BinaryOperator, BoolLiteral, Expression, LvalueExpression, Type, TypeInferenceError, TypeView,
};
use crate::bytecode::Bytecode;
use crate::machine::effect_of;
use crate::operators::SemanticBinaryOperator;
use crate::typing::{
    binop_type, element_type, field_index, field_of, find_routine, find_variable, index_type,
    infer_model, lvalue_model, member_type, operation_type, owned, reason_of, routine_index, share,
    variable_index, SymbolTable,
};

verus! {

/// The bytes that a slot takes.
pub const SLOT_SIZE: u64 = 8;

/// The operator of the machine for an operator of the language on
/// operands of a type. Booleans are compared as the integers they are.
pub open spec fn semantic_operator(
    op: BinaryOperator,
    operand: TypeView,
) -> SemanticBinaryOperator {
    match op {
        BinaryOperator::And => SemanticBinaryOperator::BoolAnd,
        BinaryOperator::Or => SemanticBinaryOperator::BoolOr,
        BinaryOperator::Xor => SemanticBinaryOperator::BoolXor,
        BinaryOperator::Le => if operand is Real {
            SemanticBinaryOperator::RealLe
        } else {
            SemanticBinaryOperator::IntLe
        },
        BinaryOperator::Lg => if operand is Real {
            SemanticBinaryOperator::RealLg
        } else {
            SemanticBinaryOperator::IntLg
        },
        BinaryOperator::Gt => if operand is Real {
            SemanticBinaryOperator::RealGt
        } else {
            SemanticBinaryOperator::IntGt
        },
        BinaryOperator::Ge => if operand is Real {
            SemanticBinaryOperator::RealGe
        } else {
            SemanticBinaryOperator::IntGe
        },
        BinaryOperator::Eq => if operand is Real {
            SemanticBinaryOperator::RealEq
        } else {
            SemanticBinaryOperator::IntEq
        },
        BinaryOperator::Neq => if operand is Real {
            SemanticBinaryOperator::RealNeq
        } else {
            SemanticBinaryOperator::IntNeq
        },
        BinaryOperator::Mul => if operand is Real {
            SemanticBinaryOperator::RealMul
        } else {
            SemanticBinaryOperator::IntMul
        },
        BinaryOperator::Div => if operand is Real {
            SemanticBinaryOperator::RealDiv
        } else {
            SemanticBinaryOperator::IntDiv
        },
        BinaryOperator::Mod => SemanticBinaryOperator::IntMod,
        BinaryOperator::Add => if operand is Real {
            SemanticBinaryOperator::RealAdd
        } else {
            SemanticBinaryOperator::IntAdd
        },
        BinaryOperator::Sub => if operand is Real {
            SemanticBinaryOperator::RealSub
        } else {
            SemanticBinaryOperator::IntSub
        },
    }
}

/// The operator of the machine for an operator of the language on
/// operands of a type.
pub fn select_operator(op: BinaryOperator, operand: &Type) -> (selected: SemanticBinaryOperator)
    ensures
        selected == semantic_operator(op, operand@),
{
    let on_reals = match operand {
        Type::Real => true,
        _ => false,
    };
    match op {
        BinaryOperator::And => SemanticBinaryOperator::BoolAnd,
        BinaryOperator::Or => SemanticBinaryOperator::BoolOr,
        BinaryOperator::Xor => SemanticBinaryOperator::BoolXor,
        BinaryOperator::Le => if on_reals {
            SemanticBinaryOperator::RealLe
        } else {
            SemanticBinaryOperator::IntLe
        },
        BinaryOperator::Lg => if on_reals {
            SemanticBinaryOperator::RealLg
        } else {
            SemanticBinaryOperator::IntLg
        },
        BinaryOperator::Gt => if on_reals {
            SemanticBinaryOperator::RealGt
        } else {
            SemanticBinaryOperator::IntGt
        },
        BinaryOperator::Ge => if on_reals {
            SemanticBinaryOperator::RealGe
        } else {
            SemanticBinaryOperator::IntGe
        },
        BinaryOperator::Eq => if on_reals {
            SemanticBinaryOperator::RealEq
        } else {
            SemanticBinaryOperator::IntEq
        },
        BinaryOperator::Neq => if on_reals {
            SemanticBinaryOperator::RealNeq
        } else {
            SemanticBinaryOperator::IntNeq
        },
        BinaryOperator::Mul => if on_reals {
            SemanticBinaryOperator::RealMul
        } else {
            SemanticBinaryOperator::IntMul
        },
        BinaryOperator::Div => if on_reals {
            SemanticBinaryOperator::RealDiv
        } else {
            SemanticBinaryOperator::IntDiv
        },
        BinaryOperator::Mod => SemanticBinaryOperator::IntMod,
        BinaryOperator::Add => if on_reals {
            SemanticBinaryOperator::RealAdd
        } else {
            SemanticBinaryOperator::IntAdd
        },
        BinaryOperator::Sub => if on_reals {
            SemanticBinaryOperator::RealSub
        } else {
            SemanticBinaryOperator::IntSub
        },
    }
}

/// The instruction that allocates a value of a type: a record takes one
/// slot for each field, an array of a fixed length one for each element.
/// Nothing is allocated for a primitive, an alias or an array whose length
/// is not fixed.
pub open spec fn allocation_model(t: TypeView) -> Option<Bytecode> {
    match t {
        TypeView::Record(fields) => if fields.len() * SLOT_SIZE <= u64::MAX {
            Some(Bytecode::AllocRecord { size: (fields.len() * SLOT_SIZE) as u64 })
        } else {
            None
        },
        TypeView::Array(_, Some(length)) => Some(
            Bytecode::AllocArray { element_size: SLOT_SIZE, size: length as u64 },
        ),
        _ => None,
    }
}

/// The instruction that allocates a value of a type, if the type needs
/// one.
pub fn allocation(t: &Type) -> (instruction: Option<Bytecode>)
    ensures
        instruction == allocation_model(t@),
{
    match t {
        Type::Record(record) => {
            proof {
                crate::ast::lemma_fields_view(record.fields@, record.fields@.len() as int);
            }
            let count = record.fields.len() as u64;
            if count <= u64::MAX / 8 {
                Some(Bytecode::AllocRecord { size: count * 8 })
            } else {
                None
            }
        },
        Type::Array(array) => match array.length {
            Some(length) => Some(Bytecode::AllocArray { element_size: 8, size: length as u64 }),
            None => None,
        },
        _ => None,
    }
}

/// What is said of a field whose offset cannot be counted.
pub open spec fn layout_reason() -> Seq<char> {
    "field offset out of range"@
}

/// The instruction that reads the field at place `index` of a record.
pub open spec fn field_access(index: int) -> Result<Bytecode, Seq<char>> {
    if index * SLOT_SIZE <= u64::MAX {
        Ok(Bytecode::GetField { field_offset: (index * SLOT_SIZE) as u64 })
    } else {
        Err(layout_reason())
    }
}

/// The label of a routine.
pub open spec fn call_target(symbols: Option<SymbolTable>, name: Seq<char>) -> Result<
    u64,
    Seq<char>,
> {
    match symbols {
        None => Err(crate::typing::no_symbols_reason()),
        Some(table) => match routine_index(table.routines@, name, table.routines@.len() as int) {
            None => Err(crate::typing::unresolved_reason(name)),
            Some(i) => Ok(table.routines@[i].label),
        },
    }
}

/// The load of a variable.
pub open spec fn variable_load(symbols: Option<SymbolTable>, name: Seq<char>) -> Result<
    Bytecode,
    Seq<char>,
> {
    match symbols {
        None => Err(crate::typing::no_symbols_reason()),
        Some(table) => match variable_index(
            table.variables@,
            name,
            table.variables@.len() as int,
        ) {
            None => Err(crate::typing::unresolved_reason(name)),
            Some(i) => Ok(Bytecode::Load { loc: table.variables@[i].location }),
        },
    }
}

/// The instruction of an operation, where the operands have types that
/// fit the operator.
pub open spec fn operation(
    op: BinaryOperator,
    lhs: Result<TypeView, Seq<char>>,
    rhs: Result<TypeView, Seq<char>>,
) -> Result<Bytecode, Seq<char>> {
    match (lhs, rhs) {
        (Ok(left), Ok(right)) => match binop_type(op, left, right) {
            Ok(_) => Ok(Bytecode::BinOp { op: semantic_operator(op, left) }),
            Err(reason) => Err(reason),
        },
        (Err(reason), _) => Err(reason),
        (_, Err(reason)) => Err(reason),
    }
}

/// The instruction that reads a field of what an lvalue names.
pub open spec fn member_access(lhs: Result<TypeView, Seq<char>>, name: Seq<char>) -> Result<
    Bytecode,
    Seq<char>,
> {
    match lhs {
        Err(reason) => Err(reason),
        Ok(t) => match member_type(t, name) {
            Err(reason) => Err(reason),
            Ok(_) => field_access(field_index(t->Record_0, name, t->Record_0.len() as int)->0),
        },
    }
}

/// The instruction that reads an element, where the lvalue names an array
/// and the index is an integer.
pub open spec fn element_access(
    lhs: Result<TypeView, Seq<char>>,
    index: Result<TypeView, Seq<char>>,
) -> Result<Bytecode, Seq<char>> {
    match (lhs, index) {
        (Ok(array), Ok(found)) => match index_type(array, found) {
            Ok(_) => Ok(Bytecode::GetIndex),
            Err(reason) => Err(reason),
        },
        (Err(reason), _) => Err(reason),
        (_, Err(reason)) => Err(reason),
    }
}

/// `code` and one more instruction, or the reason why there is none.
pub open spec fn followed(code: Seq<Bytecode>, last: Result<Bytecode, Seq<char>>) -> Result<
    Seq<Bytecode>,
    Seq<char>,
> {
    match last {
        Ok(instruction) => Ok(code.push(instruction)),
        Err(reason) => Err(reason),
    }
}

/// The instructions that leave the value of an expression on the stack.
///
/// A literal is pushed; a boolean is the integer 1 or 0. The conversion
/// of a boolean to an integer costs nothing, every other conversion one
/// instruction behind its operand. An operation follows its operands,
/// the left one first. A call follows its arguments, in their order.
pub open spec fn lower_model(expr: Expression, symbols: Option<SymbolTable>) -> Result<
    Seq<Bytecode>,
    Seq<char>,
>
    decreases expr,
{
    match expr {
        Expression::IntegerLiteral(literal) => Ok(
            seq![Bytecode::IntConst { value: literal.value }],
        ),
        Expression::RealLiteral(literal) => Ok(seq![Bytecode::RealConst { bits: literal.bits }]),
        Expression::BoolLiteral(literal) => Ok(
            seq![
                Bytecode::IntConst {
                    value: if literal is True {
                        1
                    } else {
                        0
                    },
                },
            ],
        ),
        Expression::BoolToInt(inner) => lower_model(*inner, symbols),
        Expression::RealToInt(inner) => match lower_model(*inner, symbols) {
            Ok(code) => Ok(code.push(Bytecode::RealToInt)),
            Err(reason) => Err(reason),
        },
        Expression::IntToBool(inner) => match lower_model(*inner, symbols) {
            Ok(code) => Ok(code.push(Bytecode::IntToBool)),
            Err(reason) => Err(reason),
        },
        Expression::IntToReal(inner) => match lower_model(*inner, symbols) {
            Ok(code) => Ok(code.push(Bytecode::IntToReal)),
            Err(reason) => Err(reason),
        },
        Expression::LvalueToRvalue(lvalue) => lower_lvalue_model(*lvalue, symbols),
        Expression::Binop { op, lhs, rhs } => match lower_model(*lhs, symbols) {
            Err(reason) => Err(reason),
            Ok(left) => match lower_model(*rhs, symbols) {
                Err(reason) => Err(reason),
                Ok(right) => followed(
                    left + right,
                    operation(op, infer_model(*lhs, symbols), infer_model(*rhs, symbols)),
                ),
            },
        },
        Expression::Call { callee, args } => match lower_arguments_model(
            args@,
            args@.len() as int,
            symbols,
        ) {
            Err(reason) => Err(reason),
            Ok(code) => match call_target(symbols, callee.name@) {
                Err(reason) => Err(reason),
                Ok(label) => Ok(code.push(Bytecode::Call { function_label: label })),
            },
        },
    }
}

/// The instructions that push the first `n` arguments.
pub open spec fn lower_arguments_model(
    args: Seq<Rc<Expression>>,
    n: int,
    symbols: Option<SymbolTable>,
) -> Result<Seq<Bytecode>, Seq<char>>
    decreases args, n,
{
    if n <= 0 || n > args.len() {
        Ok(Seq::empty())
    } else {
        match lower_arguments_model(args, n - 1, symbols) {
            Err(reason) => Err(reason),
            Ok(before) => match lower_model(*args[n - 1], symbols) {
                Err(reason) => Err(reason),
                Ok(last) => Ok(before + last),
            },
        }
    }
}

/// The instructions that leave on the stack what an lvalue names: a
/// variable is loaded, a field is read from the record that holds it at 8
/// bytes for every field before it, an element is read from its array by
/// the index that is pushed behind the array.
pub open spec fn lower_lvalue_model(
    lvalue: LvalueExpression,
    symbols: Option<SymbolTable>,
) -> Result<
    Seq<Bytecode>,
    Seq<char>,
>
    decreases lvalue,
{
    match lvalue {
        LvalueExpression::Identifier(identifier) => followed(
            Seq::empty(),
            variable_load(symbols, identifier.name@),
        ),
        LvalueExpression::Member { lhs, member_name } => match lower_lvalue_model(*lhs, symbols) {
            Err(reason) => Err(reason),
            Ok(code) => followed(
                code,
                member_access(lvalue_model(*lhs, symbols), member_name.name@),
            ),
        },
        LvalueExpression::Index { lhs, index } => match lower_lvalue_model(*lhs, symbols) {
            Err(reason) => Err(reason),
            Ok(code) => match lower_model(*index, symbols) {
                Err(reason) => Err(reason),
                Ok(position) => followed(
                    code + position,
                    element_access(lvalue_model(*lhs, symbols), infer_model(*index, symbols)),
                ),
            },
        },
    }
}

/// What was lowered is what the models say: on success the instructions
/// were added behind what was there and the type is the expression's
/// type, on failure the reason is the model's reason.
pub open spec fn lowered(
    found: Result<Rc<Type>, TypeInferenceError>,
    before: Seq<Bytecode>,
    after: Seq<Bytecode>,
    model: Result<Seq<Bytecode>, Seq<char>>,
    typed: Result<TypeView, Seq<char>>,
) -> bool {
    match found {
        Ok(t) => model is Ok && after == before + model->Ok_0 && typed == Ok::<
            TypeView,
            Seq<char>,
        >(t@),
        Err(error) => model == Err::<Seq<Bytecode>, Seq<char>>(error.reason@),
    }
}

fn emit(code: &mut Vec<Bytecode>, instruction: Bytecode)
    ensures
        final(code)@ == old(code)@.push(instruction),
{
    code.push(instruction);
}

/// Adds the instructions that leave the value of an expression on the
/// stack, and hands back the expression's type. After a failure the code
/// is of no use.
pub fn lower(expr: &Expression, symbols: Option<&SymbolTable>, code: &mut Vec<Bytecode>) -> (found:
    Result<Rc<Type>, TypeInferenceError>)
    ensures
        lowered(
            found,
            old(code)@,
            final(code)@,
            lower_model(*expr, owned(symbols)),
            infer_model(*expr, owned(symbols)),
        ),
    decreases *expr,
{
    let ghost table = owned(symbols);
    let ghost before = code@;
    match expr {
        Expression::IntegerLiteral(literal) => {
            emit(code, Bytecode::IntConst { value: literal.value });
            assert(code@ =~= before + seq![Bytecode::IntConst { value: literal.value }]);
            Ok(Rc::new(Type::Int))
        },
        Expression::RealLiteral(literal) => {
            emit(code, Bytecode::RealConst { bits: literal.bits });
            assert(code@ =~= before + seq![Bytecode::RealConst { bits: literal.bits }]);
            Ok(Rc::new(Type::Real))
        },
        Expression::BoolLiteral(literal) => {
            let value: i64 = match literal {
                BoolLiteral::True => 1,
                BoolLiteral::False => 0,
            };
            emit(code, Bytecode::IntConst { value });
            assert(code@ =~= before + seq![Bytecode::IntConst { value }]);
            Ok(Rc::new(Type::Bool))
        },
        Expression::BoolToInt(inner) => match lower(inner, symbols, code) {
            Err(error) => Err(error),
            Ok(_) => Ok(Rc::new(Type::Int)),
        },
        Expression::RealToInt(inner) => match lower(inner, symbols, code) {
            Err(error) => Err(error),
            Ok(_) => {
                emit(code, Bytecode::RealToInt);
                Ok(Rc::new(Type::Int))
            },
        },
        Expression::IntToBool(inner) => match lower(inner, symbols, code) {
            Err(error) => Err(error),
            Ok(_) => {
                emit(code, Bytecode::IntToBool);
                Ok(Rc::new(Type::Bool))
            },
        },
        Expression::IntToReal(inner) => match lower(inner, symbols, code) {
            Err(error) => Err(error),
            Ok(_) => {
                emit(code, Bytecode::IntToReal);
                Ok(Rc::new(Type::Real))
            },
        },
        Expression::LvalueToRvalue(lvalue) => lower_lvalue(lvalue, symbols, code),
        Expression::Binop { op, lhs, rhs } => {
            let left = match lower(lhs, symbols, code) {
                Err(error) => {
                    return Err(error);
                },
                Ok(t) => t,
            };
            let right = match lower(rhs, symbols, code) {
                Err(error) => {
                    return Err(error);
                },
                Ok(t) => t,
            };
            match operation_type(*op, &left, &right) {
                Err(error) => Err(error),
                Ok(t) => {
                    let instruction = Bytecode::BinOp { op: select_operator(*op, &left) };
                    emit(code, instruction);
                    assert(code@ =~= before + (lower_model(**lhs, table)->Ok_0 + lower_model(
                        **rhs,
                        table,
                    )->Ok_0).push(instruction));
                    Ok(t)
                },
            }
        },
        Expression::Call { callee, args } => {
            let mut i: usize = 0;
            while i < args.len()
                invariant
                    i <= args.len(),
                    table == owned(symbols),
                    *expr == (Expression::Call { callee: *callee, args: *args }),
                    lower_arguments_model(args@, i as int, table) is Ok,
                    code@ == before + lower_arguments_model(args@, i as int, table)->Ok_0,
                decreases args.len() - i,
            {
                if let Err(error) = lower(&args[i], symbols, code) {
                    proof {
                        lemma_arguments_error_sticks(args@, i + 1, args@.len() as int, table);
                    }
                    return Err(error);
                }
                i += 1;
            }
            match find_routine(symbols, &callee.name) {
                Err(error) => Err(error),
                Ok(routine) => {
                    let instruction = Bytecode::Call { function_label: routine.label };
                    emit(code, instruction);
                    Ok(share(&routine.result))
                },
            }
        },
    }
}

/// Once an argument cannot be lowered, the arguments cannot.
proof fn lemma_arguments_error_sticks(
    args: Seq<Rc<Expression>>,
    k: int,
    n: int,
    symbols: Option<SymbolTable>,
)
    requires
        0 <= k <= n <= args.len(),
        lower_arguments_model(args, k, symbols) is Err,
    ensures
        lower_arguments_model(args, n, symbols) == lower_arguments_model(args, k, symbols),
    decreases n,
{
    if n > k {
        lemma_arguments_error_sticks(args, k, n - 1, symbols);
    }
}

/// Adds the instructions that leave on the stack what an lvalue names,
/// and hands back its type.
pub fn lower_lvalue(
    lvalue: &LvalueExpression,
    symbols: Option<&SymbolTable>,
    code: &mut Vec<Bytecode>,
) -> (found: Result<Rc<Type>, TypeInferenceError>)
    ensures
        lowered(
            found,
            old(code)@,
            final(code)@,
            lower_lvalue_model(*lvalue, owned(symbols)),
            lvalue_model(*lvalue, owned(symbols)),
        ),
    decreases *lvalue,
{
    let ghost table = owned(symbols);
    let ghost before = code@;
    match lvalue {
        LvalueExpression::Identifier(identifier) => match find_variable(
            symbols,
            &identifier.name,
        ) {
            Err(error) => Err(error),
            Ok(variable) => {
                let instruction = Bytecode::Load { loc: variable.location };
                emit(code, instruction);
                assert(code@ =~= before + Seq::<Bytecode>::empty().push(instruction));
                Ok(share(&variable.t))
            },
        },
        LvalueExpression::Member { lhs, member_name } => {
            let record = match lower_lvalue(lhs, symbols, code) {
                Err(error) => {
                    return Err(error);
                },
                Ok(t) => t,
            };
            match field_of(&record, &member_name.name) {
                Err(error) => Err(error),
                Ok((index, field)) => {
                    if index as u64 > u64::MAX / 8 {
                        proof {
                            reveal_strlit("");
                        }
                        return Err(reason_of("field offset out of range", "", "", ""));
                    }
                    let instruction = Bytecode::GetField { field_offset: index as u64 * 8 };
                    emit(code, instruction);
                    Ok(field)
                },
            }
        },
        LvalueExpression::Index { lhs, index } => {
            let array = match lower_lvalue(lhs, symbols, code) {
                Err(error) => {
                    return Err(error);
                },
                Ok(t) => t,
            };
            let position = match lower(index, symbols, code) {
                Err(error) => {
                    return Err(error);
                },
                Ok(t) => t,
            };
            match element_type(&array, &position) {
                Err(error) => Err(error),
                Ok(element) => {
                    emit(code, Bytecode::GetIndex);
                    assert(code@ =~= before + (lower_lvalue_model(**lhs, table)->Ok_0
                        + lower_model(**index, table)->Ok_0).push(Bytecode::GetIndex));
                    Ok(element)
                },
            }
        },
    }
}

/// An expression with nothing wrong in it is safe to lower: lowering
/// gives its instructions, unless a record in it has a field so far
/// behind that its offset cannot be counted.
pub proof fn lemma_checked_lowers(expr: &Expression, symbols: Option<SymbolTable>)
    requires
        crate::typing::check_model(*expr, symbols).len() == 0,
    ensures
        lower_model(*expr, symbols) is Ok || lower_model(*expr, symbols) == Err::<
            Seq<Bytecode>,
            Seq<char>,
        >(layout_reason()),
    decreases *expr,
{
    match expr {
        Expression::BoolToInt(inner) => {
            lemma_checked_lowers(&**inner, symbols);
        },
        Expression::RealToInt(inner) => {
            lemma_checked_lowers(&**inner, symbols);
        },
        Expression::IntToBool(inner) => {
            lemma_checked_lowers(&**inner, symbols);
        },
        Expression::IntToReal(inner) => {
            lemma_checked_lowers(&**inner, symbols);
        },
        Expression::LvalueToRvalue(lvalue) => {
            lemma_checked_lvalue_lowers(&**lvalue, symbols);
        },
        Expression::Binop { op, lhs, rhs } => {
            lemma_checked_lowers(&**lhs, symbols);
            lemma_checked_lowers(&**rhs, symbols);
            crate::typing::lemma_checked_has_type(&**lhs, symbols);
            crate::typing::lemma_checked_has_type(&**rhs, symbols);
        },
        Expression::Call { callee, args } => {
            lemma_checked_arguments_lower(args@, args@.len() as int, symbols);
        },
        _ => {},
    }
}

proof fn lemma_checked_arguments_lower(
    args: Seq<Rc<Expression>>,
    n: int,
    symbols: Option<SymbolTable>,
)
    requires
        0 <= n <= args.len(),
        crate::typing::arguments_check(args, n, symbols).len() == 0,
    ensures
        lower_arguments_model(args, n, symbols) is Ok || lower_arguments_model(args, n, symbols)
            == Err::<Seq<Bytecode>, Seq<char>>(layout_reason()),
    decreases args, n,
{
    if n > 0 {
        lemma_checked_arguments_lower(args, n - 1, symbols);
        lemma_checked_lowers(&*args[n - 1], symbols);
    }
}

proof fn lemma_checked_lvalue_lowers(lvalue: &LvalueExpression, symbols: Option<SymbolTable>)
    requires
        crate::typing::lvalue_check(*lvalue, symbols).len() == 0,
    ensures
        lower_lvalue_model(*lvalue, symbols) is Ok || lower_lvalue_model(*lvalue, symbols) == Err::<
            Seq<Bytecode>,
            Seq<char>,
        >(layout_reason()),
    decreases *lvalue,
{
    match lvalue {
        LvalueExpression::Identifier(_) => {},
        LvalueExpression::Member { lhs, .. } => {
            lemma_checked_lvalue_lowers(&**lhs, symbols);
        },
        LvalueExpression::Index { lhs, index } => {
            lemma_checked_lvalue_lowers(&**lhs, symbols);
            lemma_checked_lowers(&**index, symbols);
            crate::typing::lemma_checked_has_type(&**index, symbols);
        },
    }
}

/// By how many values an instruction makes the stack grow. `arity` tells
/// how many arguments the function behind a label takes.
pub open spec fn growth_of(instruction: Bytecode, arity: spec_fn(u64) -> int) -> int {
    match instruction {
        Bytecode::Call { function_label } => 1 - arity(function_label),
        _ => match effect_of(instruction) {
            Some(effect) => effect.pushes - effect.pops,
            None => 0,
        },
    }
}

/// By how many values straight-line code makes the stack grow.
pub open spec fn growth(code: Seq<Bytecode>, arity: spec_fn(u64) -> int) -> int
    decreases code.len(),
{
    if code.len() == 0 {
        0
    } else {
        growth(code.drop_last(), arity) + growth_of(code.last(), arity)
    }
}

/// `arity` tells of every routine of the table how many parameters it
/// has.
pub open spec fn arity_of_routines(
    symbols: Option<SymbolTable>,
    arity: spec_fn(u64) -> int,
) -> bool {
    match symbols {
        None => true,
        Some(table) => forall|i: int|
            0 <= i < table.routines@.len() ==> arity((#[trigger] table.routines@[i]).label)
                == table.routines@[i].parameters@.len(),
    }
}

proof fn lemma_growth_adds(first: Seq<Bytecode>, second: Seq<Bytecode>, arity: spec_fn(u64) -> int)
    ensures
        growth(first + second, arity) == growth(first, arity) + growth(second, arity),
    decreases second.len(),
{
    if second.len() > 0 {
        assert((first + second).drop_last() =~= first + second.drop_last());
        lemma_growth_adds(first, second.drop_last(), arity);
    }
}

proof fn lemma_growth_push(code: Seq<Bytecode>, last: Bytecode, arity: spec_fn(u64) -> int)
    ensures
        growth(code.push(last), arity) == growth(code, arity) + growth_of(last, arity),
{
    assert(code.push(last).drop_last() =~= code);
}

proof fn lemma_routine_index_valid(
    routines: Seq<crate::typing::RoutineSymbol>,
    name: Seq<char>,
    n: int,
)
    requires
        0 <= n <= routines.len(),
    ensures
        match routine_index(routines, name, n) {
            Some(i) => 0 <= i < n,
            None => true,
        },
    decreases n,
{
    if n > 0 && routines[n - 1].name@ != name {
        lemma_routine_index_valid(routines, name, n - 1);
    }
}

/// Growth adds up over code that is put together.
proof fn lemma_growth_all(arity: spec_fn(u64) -> int)
    ensures
        forall|first: Seq<Bytecode>, second: Seq<Bytecode>| #[trigger]
            growth(first + second, arity) == growth(first, arity) + growth(second, arity),
        forall|code: Seq<Bytecode>, last: Bytecode| #[trigger]
            growth(code.push(last), arity) == growth(code, arity) + growth_of(last, arity),
{
    assert forall|first: Seq<Bytecode>, second: Seq<Bytecode>| #[trigger]
        growth(first + second, arity) == growth(first, arity) + growth(second, arity) by {
        lemma_growth_adds(first, second, arity);
    }
    assert forall|code: Seq<Bytecode>, last: Bytecode| #[trigger]
        growth(code.push(last), arity) == growth(code, arity) + growth_of(last, arity) by {
        lemma_growth_push(code, last, arity);
    }
}

/// The code of an expression with nothing wrong in it leaves one value
/// more on the stack than it found there.
pub proof fn lemma_expression_pushes_one(
    expr: &Expression,
    symbols: Option<SymbolTable>,
    arity: spec_fn(u64) -> int,
)
    requires
        crate::typing::check_model(*expr, symbols).len() == 0,
        lower_model(*expr, symbols) is Ok,
        arity_of_routines(symbols, arity),
    ensures
        growth(lower_model(*expr, symbols)->Ok_0, arity) == 1,
    decreases *expr,
{
    lemma_growth_all(arity);
    match expr {
        Expression::IntegerLiteral(literal) => {},
        Expression::RealLiteral(literal) => {},
        Expression::BoolLiteral(literal) => {},
        Expression::BoolToInt(inner) => {
            lemma_expression_pushes_one(&**inner, symbols, arity);
        },
        Expression::RealToInt(inner) => {
            lemma_expression_pushes_one(&**inner, symbols, arity);
        },
        Expression::IntToBool(inner) => {
            lemma_expression_pushes_one(&**inner, symbols, arity);
        },
        Expression::IntToReal(inner) => {
            lemma_expression_pushes_one(&**inner, symbols, arity);
        },
        Expression::LvalueToRvalue(lvalue) => {
            lemma_lvalue_pushes_one(&**lvalue, symbols, arity);
        },
        Expression::Binop { op, lhs, rhs } => {
            lemma_expression_pushes_one(&**lhs, symbols, arity);
            lemma_expression_pushes_one(&**rhs, symbols, arity);
        },
        Expression::Call { callee, args } => {
            lemma_arguments_push(args@, args@.len() as int, symbols, arity);
            lemma_arguments_inferred(args@, args@.len() as int, symbols);
            lemma_routine_index_valid(
                symbols->0.routines@,
                callee.name@,
                symbols->0.routines@.len() as int,
            );
        },
    }
}

/// Arguments with nothing wrong in them have types.
proof fn lemma_arguments_inferred(args: Seq<Rc<Expression>>, n: int, symbols: Option<SymbolTable>)
    requires
        0 <= n <= args.len(),
        crate::typing::arguments_check(args, n, symbols).len() == 0,
    ensures
        forall|i: int| 0 <= i < n ==> (#[trigger] infer_model(*args[i], symbols)) is Ok,
    decreases n,
{
    if n > 0 {
        lemma_arguments_inferred(args, n - 1, symbols);
        crate::typing::lemma_checked_has_type(&*args[n - 1], symbols);
    }
}

proof fn lemma_arguments_push(
    args: Seq<Rc<Expression>>,
    n: int,
    symbols: Option<SymbolTable>,
    arity: spec_fn(u64) -> int,
)
    requires
        0 <= n <= args.len(),
        crate::typing::arguments_check(args, n, symbols).len() == 0,
        lower_arguments_model(args, n, symbols) is Ok,
        arity_of_routines(symbols, arity),
    ensures
        growth(lower_arguments_model(args, n, symbols)->Ok_0, arity) == n,
    decreases args, n,
{
    lemma_growth_all(arity);
    if n > 0 {
        lemma_arguments_push(args, n - 1, symbols, arity);
        lemma_expression_pushes_one(&*args[n - 1], symbols, arity);
    }
}

proof fn lemma_lvalue_pushes_one(
    lvalue: &LvalueExpression,
    symbols: Option<SymbolTable>,
    arity: spec_fn(u64) -> int,
)
    requires
        crate::typing::lvalue_check(*lvalue, symbols).len() == 0,
        lower_lvalue_model(*lvalue, symbols) is Ok,
        arity_of_routines(symbols, arity),
    ensures
        growth(lower_lvalue_model(*lvalue, symbols)->Ok_0, arity) == 1,
    decreases *lvalue,
{
    lemma_growth_all(arity);
    match lvalue {
        LvalueExpression::Identifier(_) => {},
        LvalueExpression::Member { lhs, .. } => {
            lemma_lvalue_pushes_one(&**lhs, symbols, arity);
        },
        LvalueExpression::Index { lhs, index } => {
            lemma_lvalue_pushes_one(&**lhs, symbols, arity);
            lemma_expression_pushes_one(&**index, symbols, arity);
        },
    }
}

} // verus!
