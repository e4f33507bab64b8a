//! Type inference and type checking of expressions.

use vstd::prelude::*;
use vstd::string::StringExecFns;
use std::rc::Rc;
use crate::bytecode::Location;
use crate::ast::{
    describe_type, fields_view, lemma_fields_view, same_type, type_label, type_view,
    BinaryOperator, Expression, FieldView, LvalueExpression, Type, TypeInferenceError, TypeView,
};

verus! {

/// `Rc::clone`: one more handle on the same value.
#[verifier::external_body]
pub(crate) fn share<T>(handle: &Rc<T>) -> (shared: Rc<T>)
    ensures
        shared == *handle,
{
    Rc::clone(handle)
}

/// A variable: its name, its type and where it lives.
#[derive(PartialEq, Eq, Debug, Clone)]
pub struct VariableSymbol {
    pub name: String,
    pub t: Rc<Type>,
    /// The slot that holds the variable.
    pub location: Location,
}

/// A routine: its name, the types of its parameters and of its result,
/// and where its code starts.
#[derive(PartialEq, Eq, Debug, Clone)]
pub struct RoutineSymbol {
    pub name: String,
    pub parameters: Vec<Rc<Type>>,
    pub result: Rc<Type>,
    /// The label at which the routine's code starts.
    pub label: u64,
}

/// What the names of a program stand for. A later entry hides an earlier
/// one of the same name.
#[derive(PartialEq, Eq, Debug, Clone)]
pub struct SymbolTable {
    pub variables: Vec<VariableSymbol>,
    pub routines: Vec<RoutineSymbol>,
}

/// The last of the first `n` variables that has the name.
pub open spec fn variable_index(variables: Seq<VariableSymbol>, name: Seq<char>, n: int) -> Option<
    int,
>
    decreases n,
{
    if n <= 0 || n > variables.len() {
        None
    } else if variables[n - 1].name@ == name {
        Some(n - 1)
    } else {
        variable_index(variables, name, n - 1)
    }
}

/// The last of the first `n` routines that has the name.
pub open spec fn routine_index(routines: Seq<RoutineSymbol>, name: Seq<char>, n: int) -> Option<
    int,
>
    decreases n,
{
    if n <= 0 || n > routines.len() {
        None
    } else if routines[n - 1].name@ == name {
        Some(n - 1)
    } else {
        routine_index(routines, name, n - 1)
    }
}

/// The first of the first `n` fields that has the name.
pub open spec fn field_index(fields: Seq<FieldView>, name: Seq<char>, n: int) -> Option<int>
    decreases n,
{
    if n <= 0 || n > fields.len() {
        None
    } else {
        match field_index(fields, name, n - 1) {
            Some(i) => Some(i),
            None => if fields[n - 1].name == name {
                Some(n - 1)
            } else {
                None
            },
        }
    }
}

/// What is said of a name where there is no symbol table.
pub open spec fn no_symbols_reason() -> Seq<char> {
    "no symbol table"@
}

/// What is said of a name that the symbol table does not hold.
pub open spec fn unresolved_reason(name: Seq<char>) -> Seq<char> {
    "unresolved name `"@ + name + "`"@
}

/// What is said of a field that a type does not have.
pub open spec fn member_reason(t: TypeView, name: Seq<char>) -> Seq<char> {
    "no field `"@ + name + "` in "@ + type_label(t)
}

/// What is said of an index into what is no array, or by what is no
/// integer.
pub open spec fn index_reason(array: TypeView, index: TypeView) -> Seq<char> {
    "cannot index "@ + type_label(array) + " with "@ + type_label(index)
}

/// What is said of operands that do not fit their operator.
pub open spec fn operands_reason(lhs: TypeView, rhs: TypeView) -> Seq<char> {
    "operator cannot take "@ + type_label(lhs) + " and "@ + type_label(rhs)
}

/// What is said of a conversion whose operand has another type than the
/// conversion takes.
pub open spec fn conversion_reason(found: TypeView, expected: TypeView) -> Seq<char> {
    "conversion takes "@ + type_label(expected) + ", not "@ + type_label(found)
}

/// What is said of a call whose arguments are not what the routine
/// takes.
pub open spec fn arguments_reason(name: Seq<char>) -> Seq<char> {
    "arguments do not fit routine `"@ + name + "`"@
}

/// The type of a variable.
pub open spec fn variable_type(symbols: Option<SymbolTable>, name: Seq<char>) -> Result<
    TypeView,
    Seq<char>,
> {
    match symbols {
        None => Err(no_symbols_reason()),
        Some(table) => match variable_index(
            table.variables@,
            name,
            table.variables@.len() as int,
        ) {
            None => Err(unresolved_reason(name)),
            Some(i) => Ok(table.variables@[i].t@),
        },
    }
}

/// The type of what a routine returns.
pub open spec fn call_type(symbols: Option<SymbolTable>, name: Seq<char>) -> Result<
    TypeView,
    Seq<char>,
> {
    match symbols {
        None => Err(no_symbols_reason()),
        Some(table) => match routine_index(table.routines@, name, table.routines@.len() as int) {
            None => Err(unresolved_reason(name)),
            Some(i) => Ok(table.routines@[i].result@),
        },
    }
}

/// The type of a field of a value of type `t`.
pub open spec fn member_type(t: TypeView, name: Seq<char>) -> Result<TypeView, Seq<char>> {
    match t {
        TypeView::Record(fields) => match field_index(fields, name, fields.len() as int) {
            Some(i) => Ok(fields[i].t),
            None => Err(member_reason(t, name)),
        },
        _ => Err(member_reason(t, name)),
    }
}

/// The type of an element of a value of type `array`, found by an index
/// of type `index`.
pub open spec fn index_type(array: TypeView, index: TypeView) -> Result<TypeView, Seq<char>> {
    match array {
        TypeView::Array(element, _) => if index is Int {
            Ok(*element)
        } else {
            Err(index_reason(array, index))
        },
        _ => Err(index_reason(array, index)),
    }
}

/// The three families of binary operators.
pub enum OperatorFamily {
    Arithmetic,
    Comparison,
    Logical,
}

/// The family of an operator.
pub open spec fn operator_family(op: BinaryOperator) -> OperatorFamily {
    match op {
        BinaryOperator::And | BinaryOperator::Or | BinaryOperator::Xor => OperatorFamily::Logical,
        BinaryOperator::Le
        | BinaryOperator::Lg
        | BinaryOperator::Gt
        | BinaryOperator::Ge
        | BinaryOperator::Eq
        | BinaryOperator::Neq => OperatorFamily::Comparison,
        BinaryOperator::Mul
        | BinaryOperator::Div
        | BinaryOperator::Mod
        | BinaryOperator::Add
        | BinaryOperator::Sub => OperatorFamily::Arithmetic,
    }
}

/// Whether an operator takes two operands of the types. An arithmetic
/// operator takes two integers or, but for the remainder, two reals. A
/// comparison takes two operands of one primitive type. A logical operator
/// takes two booleans.
pub open spec fn operands_fit(op: BinaryOperator, lhs: TypeView, rhs: TypeView) -> bool {
    match operator_family(op) {
        OperatorFamily::Arithmetic => lhs == rhs && (lhs is Int || (lhs is Real && op
            != BinaryOperator::Mod)),
        OperatorFamily::Comparison => lhs == rhs && (lhs is Int || lhs is Real || lhs is Bool),
        OperatorFamily::Logical => lhs is Bool && rhs is Bool,
    }
}

/// The type of a binary operation: that of the operands for arithmetic,
/// boolean for a comparison and for a logical operator.
pub open spec fn binop_type(op: BinaryOperator, lhs: TypeView, rhs: TypeView) -> Result<
    TypeView,
    Seq<char>,
> {
    if !operands_fit(op, lhs, rhs) {
        Err(operands_reason(lhs, rhs))
    } else if operator_family(op) is Arithmetic {
        Ok(lhs)
    } else {
        Ok(TypeView::Bool)
    }
}

/// The type of an expression, or why it has none.
pub open spec fn infer_model(expr: Expression, symbols: Option<SymbolTable>) -> Result<
    TypeView,
    Seq<char>,
>
    decreases expr,
{
    match expr {
        Expression::IntegerLiteral(_) => Ok(TypeView::Int),
        Expression::RealLiteral(_) => Ok(TypeView::Real),
        Expression::BoolLiteral(_) => Ok(TypeView::Bool),
        Expression::BoolToInt(_) => Ok(TypeView::Int),
        Expression::RealToInt(_) => Ok(TypeView::Int),
        Expression::IntToBool(_) => Ok(TypeView::Bool),
        Expression::IntToReal(_) => Ok(TypeView::Real),
        Expression::Call { callee, args } => call_type(symbols, callee.name@),
        Expression::LvalueToRvalue(lvalue) => lvalue_model(*lvalue, symbols),
        Expression::Binop { op, lhs, rhs } => match infer_model(*lhs, symbols) {
            Err(reason) => Err(reason),
            Ok(left) => match infer_model(*rhs, symbols) {
                Err(reason) => Err(reason),
                Ok(right) => binop_type(op, left, right),
            },
        },
    }
}

/// The type of what an lvalue names, or why it has none.
pub open spec fn lvalue_model(lvalue: LvalueExpression, symbols: Option<SymbolTable>) -> Result<
    TypeView,
    Seq<char>,
>
    decreases lvalue,
{
    match lvalue {
        LvalueExpression::Identifier(identifier) => variable_type(symbols, identifier.name@),
        LvalueExpression::Member { lhs, member_name } => match lvalue_model(*lhs, symbols) {
            Err(reason) => Err(reason),
            Ok(t) => member_type(t, member_name.name@),
        },
        LvalueExpression::Index { lhs, index } => match lvalue_model(*lhs, symbols) {
            Err(reason) => Err(reason),
            Ok(array) => match infer_model(*index, symbols) {
                Err(reason) => Err(reason),
                Ok(found) => index_type(array, found),
            },
        },
    }
}

/// The table behind a reference to one.
pub open spec fn owned(symbols: Option<&SymbolTable>) -> Option<SymbolTable> {
    match symbols {
        Some(table) => Some(*table),
        None => None,
    }
}

/// What was found is what the model says.
pub open spec fn agrees(
    found: Result<Rc<Type>, TypeInferenceError>,
    model: Result<TypeView, Seq<char>>,
) -> bool {
    match found {
        Ok(t) => model == Ok::<TypeView, Seq<char>>(t@),
        Err(error) => model == Err::<TypeView, Seq<char>>(error.reason@),
    }
}

pub(crate) fn reason_of(before: &str, first: &str, between: &str, second: &str) -> (error:
    TypeInferenceError)
    ensures
        error.reason@ == before@ + first@ + between@ + second@,
{
    let mut reason = String::from_str(before);
    reason.append(first);
    reason.append(between);
    reason.append(second);
    TypeInferenceError { reason }
}

#[verifier::loop_isolation(false)]
pub(crate) fn find_variable<'t>(symbols: Option<&'t SymbolTable>, name: &String) -> (found: Result<
    &'t VariableSymbol,
    TypeInferenceError,
>)
    ensures
        match found {
            Ok(variable) => symbols is Some && match variable_index(
                symbols->0.variables@,
                name@,
                symbols->0.variables@.len() as int,
            ) {
                Some(i) => *variable == symbols->0.variables@[i],
                None => false,
            },
            Err(error) => variable_type(owned(symbols), name@) == Err::<TypeView, Seq<char>>(
                error.reason@,
            ),
        },
{
    proof {
        reveal_strlit("");
    }
    match symbols {
        None => Err(reason_of("no symbol table", "", "", "")),
        Some(table) => {
            let mut n = table.variables.len();
            while n > 0
                invariant
                    n <= table.variables.len(),
                    variable_index(table.variables@, name@, table.variables@.len() as int)
                        == variable_index(table.variables@, name@, n as int),
                decreases n,
            {
                if table.variables[n - 1].name == *name {
                    return Ok(&table.variables[n - 1]);
                }
                n -= 1;
            }
            Err(reason_of("unresolved name `", name.as_str(), "`", ""))
        },
    }
}

#[verifier::loop_isolation(false)]
pub(crate) fn find_routine<'t>(symbols: Option<&'t SymbolTable>, name: &String) -> (found: Result<
    &'t RoutineSymbol,
    TypeInferenceError,
>)
    ensures
        match found {
            Ok(routine) => symbols is Some && match routine_index(
                symbols->0.routines@,
                name@,
                symbols->0.routines@.len() as int,
            ) {
                Some(i) => *routine == symbols->0.routines@[i],
                None => false,
            },
            Err(error) => call_type(owned(symbols), name@) == Err::<TypeView, Seq<char>>(
                error.reason@,
            ),
        },
{
    proof {
        reveal_strlit("");
    }
    match symbols {
        None => Err(reason_of("no symbol table", "", "", "")),
        Some(table) => {
            let mut n = table.routines.len();
            while n > 0
                invariant
                    n <= table.routines.len(),
                    routine_index(table.routines@, name@, table.routines@.len() as int)
                        == routine_index(table.routines@, name@, n as int),
                decreases n,
            {
                if table.routines[n - 1].name == *name {
                    return Ok(&table.routines[n - 1]);
                }
                n -= 1;
            }
            Err(reason_of("unresolved name `", name.as_str(), "`", ""))
        },
    }
}

/// The place and the type of a field of a value of type `t`.
#[verifier::loop_isolation(false)]
pub(crate) fn field_of(t: &Rc<Type>, name: &String) -> (found: Result<
    (usize, Rc<Type>),
    TypeInferenceError,
>)
    ensures
        match found {
            Ok((index, field)) => member_type(t@, name@) == Ok::<TypeView, Seq<char>>(field@)
                && t@ is Record && field_index(
                t@->Record_0,
                name@,
                t@->Record_0.len() as int,
            ) == Some(index as int),
            Err(error) => member_type(t@, name@) == Err::<TypeView, Seq<char>>(error.reason@),
        },
{
    match &**t {
        Type::Record(record) => {
            proof {
                lemma_fields_view(record.fields@, record.fields@.len() as int);
            }
            let ghost fields = fields_view(record.fields@, record.fields@.len() as int);
            let mut i: usize = 0;
            while i < record.fields.len()
                invariant
                    i <= record.fields.len(),
                    fields == fields_view(record.fields@, record.fields@.len() as int),
                    fields.len() == record.fields@.len(),
                    forall|k: int|
                        0 <= k < fields.len() ==> (#[trigger] fields[k]) == (FieldView {
                            name: record.fields@[k].name.name@,
                            t: type_view(*record.fields@[k].t),
                        }),
                    field_index(fields, name@, i as int) is None,
                decreases record.fields.len() - i,
            {
                if record.fields[i].name.name == *name {
                    proof {
                        lemma_field_index_found(fields, name@, i as int, fields.len() as int);
                    }
                    return Ok((i, share(&record.fields[i].t)));
                }
                i += 1;
            }
            let label = describe_type(t);
            Err(reason_of("no field `", name.as_str(), "` in ", label.as_str()))
        },
        _ => {
            let label = describe_type(t);
            Err(reason_of("no field `", name.as_str(), "` in ", label.as_str()))
        },
    }
}

pub(crate) fn field_type(t: &Rc<Type>, name: &String) -> (found: Result<
    Rc<Type>,
    TypeInferenceError,
>)
    ensures
        agrees(found, member_type(t@, name@)),
{
    match field_of(t, name) {
        Ok((_, field)) => Ok(field),
        Err(error) => Err(error),
    }
}

/// A field that is the first of its name among the first `i + 1` fields
/// is the first of its name among more.
proof fn lemma_field_index_found(fields: Seq<FieldView>, name: Seq<char>, i: int, n: int)
    requires
        0 <= i < n <= fields.len(),
        field_index(fields, name, i) is None,
        fields[i].name == name,
    ensures
        field_index(fields, name, n) == Some(i),
    decreases n,
{
    if n > i + 1 {
        lemma_field_index_found(fields, name, i, n - 1);
    }
}

pub(crate) fn element_type(array: &Rc<Type>, index: &Rc<Type>) -> (found: Result<
    Rc<Type>,
    TypeInferenceError,
>)
    ensures
        agrees(found, index_type(array@, index@)),
{
    match (&**array, &**index) {
        (Type::Array(declaration), Type::Int) => Ok(share(&declaration.t)),
        _ => {
            let first = describe_type(array);
            let second = describe_type(index);
            Err(reason_of("cannot index ", first.as_str(), " with ", second.as_str()))
        },
    }
}

pub(crate) fn operation_type(op: BinaryOperator, lhs: &Rc<Type>, rhs: &Rc<Type>) -> (found: Result<
    Rc<Type>,
    TypeInferenceError,
>)
    ensures
        agrees(found, binop_type(op, lhs@, rhs@)),
{
    let same = same_type(lhs, rhs);
    let found = match op {
        BinaryOperator::And | BinaryOperator::Or | BinaryOperator::Xor => match (&**lhs, &**rhs) {
            (Type::Bool, Type::Bool) => Some(Type::Bool),
            _ => None,
        },
        BinaryOperator::Le
        | BinaryOperator::Lg
        | BinaryOperator::Gt
        | BinaryOperator::Ge
        | BinaryOperator::Eq
        | BinaryOperator::Neq => match &**lhs {
            Type::Int | Type::Real | Type::Bool => if same {
                Some(Type::Bool)
            } else {
                None
            },
            _ => None,
        },
        BinaryOperator::Mod => match &**lhs {
            Type::Int => if same {
                Some(Type::Int)
            } else {
                None
            },
            _ => None,
        },
        BinaryOperator::Mul | BinaryOperator::Div | BinaryOperator::Add | BinaryOperator::Sub => {
            match &**lhs {
                Type::Int => if same {
                    Some(Type::Int)
                } else {
                    None
                },
                Type::Real => if same {
                    Some(Type::Real)
                } else {
                    None
                },
                _ => None,
            }
        },
    };
    match found {
        Some(t) => Ok(Rc::new(t)),
        None => {
            let first = describe_type(lhs);
            let second = describe_type(rhs);
            Err(reason_of("operator cannot take ", first.as_str(), " and ", second.as_str()))
        },
    }
}

/// The type of an expression. A literal has its primitive type and a
/// conversion the type it converts to. A call and a variable need the
/// symbol table; an operation needs operands that fit its operator.
pub fn infer(expr: &Expression, symbols: Option<&SymbolTable>) -> (found: Result<
    Rc<Type>,
    TypeInferenceError,
>)
    ensures
        agrees(found, infer_model(*expr, owned(symbols))),
    decreases *expr,
{
    match expr {
        Expression::IntegerLiteral(_) => Ok(Rc::new(Type::Int)),
        Expression::RealLiteral(_) => Ok(Rc::new(Type::Real)),
        Expression::BoolLiteral(_) => Ok(Rc::new(Type::Bool)),
        Expression::BoolToInt(_) => Ok(Rc::new(Type::Int)),
        Expression::RealToInt(_) => Ok(Rc::new(Type::Int)),
        Expression::IntToBool(_) => Ok(Rc::new(Type::Bool)),
        Expression::IntToReal(_) => Ok(Rc::new(Type::Real)),
        Expression::Call { callee, args } => match find_routine(symbols, &callee.name) {
            Ok(routine) => Ok(share(&routine.result)),
            Err(error) => Err(error),
        },
        Expression::LvalueToRvalue(lvalue) => infer_lvalue(lvalue, symbols),
        Expression::Binop { op, lhs, rhs } => {
            let left = match infer(lhs, symbols) {
                Ok(t) => t,
                Err(error) => {
                    return Err(error);
                },
            };
            let right = match infer(rhs, symbols) {
                Ok(t) => t,
                Err(error) => {
                    return Err(error);
                },
            };
            operation_type(*op, &left, &right)
        },
    }
}

/// The type of what an lvalue names.
pub fn infer_lvalue(lvalue: &LvalueExpression, symbols: Option<&SymbolTable>) -> (found: Result<
    Rc<Type>,
    TypeInferenceError,
>)
    ensures
        agrees(found, lvalue_model(*lvalue, owned(symbols))),
    decreases *lvalue,
{
    match lvalue {
        LvalueExpression::Identifier(identifier) => match find_variable(
            symbols,
            &identifier.name,
        ) {
            Ok(variable) => Ok(share(&variable.t)),
            Err(error) => Err(error),
        },
        LvalueExpression::Member { lhs, member_name } => {
            match infer_lvalue(lhs, symbols) {
                Ok(t) => field_type(&t, &member_name.name),
                Err(error) => Err(error),
            }
        },
        LvalueExpression::Index { lhs, index } => {
            let array = match infer_lvalue(lhs, symbols) {
                Ok(t) => t,
                Err(error) => {
                    return Err(error);
                },
            };
            let found = match infer(index, symbols) {
                Ok(t) => t,
                Err(error) => {
                    return Err(error);
                },
            };
            element_type(&array, &found)
        },
    }
}

/// One reason if the model is an error, none if it is a type.
pub open spec fn failure(model: Result<TypeView, Seq<char>>) -> Seq<Seq<char>> {
    match model {
        Ok(_) => Seq::empty(),
        Err(reason) => seq![reason],
    }
}

/// What is wrong with the operand of a conversion that takes `expected`:
/// nothing if the operand has no type at all, which is said elsewhere.
pub open spec fn source_errors(found: Result<TypeView, Seq<char>>, expected: TypeView) -> Seq<
    Seq<char>,
> {
    match found {
        Ok(t) => if t == expected {
            Seq::empty()
        } else {
            seq![conversion_reason(t, expected)]
        },
        Err(_) => Seq::empty(),
    }
}

/// Every argument has a type.
pub open spec fn arguments_inferred(
    args: Seq<Rc<Expression>>,
    symbols: Option<SymbolTable>,
) -> bool {
    forall|i: int| 0 <= i < args.len() ==> (#[trigger] infer_model(*args[i], symbols)) is Ok
}

/// There are as many arguments as parameters, each of its parameter's
/// type.
pub open spec fn arguments_fit(
    args: Seq<Rc<Expression>>,
    parameters: Seq<Rc<Type>>,
    symbols: Option<SymbolTable>,
) -> bool {
    args.len() == parameters.len() && forall|i: int|
        0 <= i < args.len() ==> (#[trigger] infer_model(*args[i], symbols)) == Ok::<
            TypeView,
            Seq<char>,
        >(parameters[i]@)
}

/// What is wrong with a call itself, its arguments apart.
pub open spec fn call_errors(
    callee: Seq<char>,
    args: Seq<Rc<Expression>>,
    symbols: Option<SymbolTable>,
) -> Seq<Seq<char>> {
    match symbols {
        None => seq![no_symbols_reason()],
        Some(table) => match routine_index(table.routines@, callee, table.routines@.len() as int) {
            None => seq![unresolved_reason(callee)],
            Some(k) => if arguments_inferred(args, symbols) && !arguments_fit(
                args,
                table.routines@[k].parameters@,
                symbols,
            ) {
                seq![arguments_reason(callee)]
            } else {
                Seq::empty()
            },
        },
    }
}

/// What is wrong with an operation itself, where both operands have a
/// type.
pub open spec fn operation_errors(
    op: BinaryOperator,
    lhs: Result<TypeView, Seq<char>>,
    rhs: Result<TypeView, Seq<char>>,
) -> Seq<Seq<char>> {
    match (lhs, rhs) {
        (Ok(left), Ok(right)) => failure(binop_type(op, left, right)),
        _ => Seq::empty(),
    }
}

/// Everything that is wrong with an expression: what is wrong with its
/// parts, in their order, and then what is wrong with the node itself
/// where its parts have types.
pub open spec fn check_model(expr: Expression, symbols: Option<SymbolTable>) -> Seq<Seq<char>>
    decreases expr,
{
    match expr {
        Expression::IntegerLiteral(_) => Seq::empty(),
        Expression::RealLiteral(_) => Seq::empty(),
        Expression::BoolLiteral(_) => Seq::empty(),
        Expression::BoolToInt(inner) => check_model(*inner, symbols) + source_errors(
            infer_model(*inner, symbols),
            TypeView::Bool,
        ),
        Expression::RealToInt(inner) => check_model(*inner, symbols) + source_errors(
            infer_model(*inner, symbols),
            TypeView::Real,
        ),
        Expression::IntToBool(inner) => check_model(*inner, symbols) + source_errors(
            infer_model(*inner, symbols),
            TypeView::Int,
        ),
        Expression::IntToReal(inner) => check_model(*inner, symbols) + source_errors(
            infer_model(*inner, symbols),
            TypeView::Int,
        ),
        Expression::Call { callee, args } => arguments_check(
            args@,
            args@.len() as int,
            symbols,
        ) + call_errors(callee.name@, args@, symbols),
        Expression::LvalueToRvalue(lvalue) => lvalue_check(*lvalue, symbols),
        Expression::Binop { op, lhs, rhs } => check_model(*lhs, symbols) + check_model(
            *rhs,
            symbols,
        ) + operation_errors(op, infer_model(*lhs, symbols), infer_model(*rhs, symbols)),
    }
}

/// Everything that is wrong with the first `n` arguments.
pub open spec fn arguments_check(
    args: Seq<Rc<Expression>>,
    n: int,
    symbols: Option<SymbolTable>,
) -> Seq<
    Seq<char>,
>
    decreases args, n,
{
    if n <= 0 || n > args.len() {
        Seq::empty()
    } else {
        arguments_check(args, n - 1, symbols) + check_model(*args[n - 1], symbols)
    }
}

/// What is wrong with a member access itself, where the record has a
/// type.
pub open spec fn member_errors(
    lhs: Result<TypeView, Seq<char>>,
    name: Seq<char>,
) -> Seq<Seq<char>> {
    match lhs {
        Ok(t) => failure(member_type(t, name)),
        Err(_) => Seq::empty(),
    }
}

/// What is wrong with an index itself, where the array and the index
/// have types.
pub open spec fn index_errors(
    lhs: Result<TypeView, Seq<char>>,
    index: Result<TypeView, Seq<char>>,
) -> Seq<
    Seq<char>,
> {
    match (lhs, index) {
        (Ok(array), Ok(found)) => failure(index_type(array, found)),
        _ => Seq::empty(),
    }
}

/// Everything that is wrong with an lvalue.
pub open spec fn lvalue_check(lvalue: LvalueExpression, symbols: Option<SymbolTable>) -> Seq<
    Seq<char>,
>
    decreases lvalue,
{
    match lvalue {
        LvalueExpression::Identifier(identifier) => failure(
            variable_type(symbols, identifier.name@),
        ),
        LvalueExpression::Member { lhs, member_name } => lvalue_check(*lhs, symbols)
            + member_errors(lvalue_model(*lhs, symbols), member_name.name@),
        LvalueExpression::Index { lhs, index } => lvalue_check(*lhs, symbols) + check_model(
            *index,
            symbols,
        ) + index_errors(lvalue_model(*lhs, symbols), infer_model(*index, symbols)),
    }
}

/// The reasons of a list of errors.
pub open spec fn reasons(errors: Seq<TypeInferenceError>) -> Seq<Seq<char>> {
    errors.map_values(|error: TypeInferenceError| error.reason@)
}

/// The type that was found, if one was, is what the model says.
pub open spec fn found_type(found: Option<Rc<Type>>, model: Result<TypeView, Seq<char>>) -> bool {
    match found {
        Some(t) => model == Ok::<TypeView, Seq<char>>(t@),
        None => model is Err,
    }
}

fn report(errors: &mut Vec<TypeInferenceError>, error: TypeInferenceError)
    ensures
        reasons(final(errors)@) == reasons(old(errors)@) + seq![error.reason@],
{
    errors.push(error);
}

fn check_source(found: &Option<Rc<Type>>, expected: &Type, errors: &mut Vec<TypeInferenceError>)
    requires
        expected@ is Int || expected@ is Real || expected@ is Bool,
    ensures
        forall|model: Result<TypeView, Seq<char>>|
            found_type(*found, model) ==> reasons(final(errors)@) == reasons(old(errors)@)
                + source_errors(model, expected@),
{
    if let Some(t) = found {
        if !same_type(t, expected) {
            let first = describe_type(expected);
            let second = describe_type(t);
            report(
                errors,
                reason_of("conversion takes ", first.as_str(), ", not ", second.as_str()),
            );
        }
    }
}

/// Checks an expression and everything in it, adds what is wrong to the
/// list and hands back the expression's type, if it has one.
pub fn check(
    expr: &Expression,
    symbols: Option<&SymbolTable>,
    errors: &mut Vec<TypeInferenceError>,
) -> (found:
    Option<Rc<Type>>)
    ensures
        reasons(final(errors)@) == reasons(old(errors)@) + check_model(*expr, owned(symbols)),
        found_type(found, infer_model(*expr, owned(symbols))),
    decreases *expr,
{
    let ghost table = owned(symbols);
    let ghost before = reasons(errors@);
    match expr {
        Expression::IntegerLiteral(_) => {
            Some(Rc::new(Type::Int))
        },
        Expression::RealLiteral(_) => {
            Some(Rc::new(Type::Real))
        },
        Expression::BoolLiteral(_) => {
            Some(Rc::new(Type::Bool))
        },
        Expression::BoolToInt(inner) => {
            let found = check(inner, symbols, errors);
            check_source(&found, &Type::Bool, errors);
            Some(Rc::new(Type::Int))
        },
        Expression::RealToInt(inner) => {
            let found = check(inner, symbols, errors);
            check_source(&found, &Type::Real, errors);
            Some(Rc::new(Type::Int))
        },
        Expression::IntToBool(inner) => {
            let found = check(inner, symbols, errors);
            check_source(&found, &Type::Int, errors);
            Some(Rc::new(Type::Bool))
        },
        Expression::IntToReal(inner) => {
            let found = check(inner, symbols, errors);
            check_source(&found, &Type::Int, errors);
            Some(Rc::new(Type::Real))
        },
        Expression::LvalueToRvalue(lvalue) => check_lvalue(lvalue, symbols, errors),
        Expression::Binop { op, lhs, rhs } => {
            let left = check(lhs, symbols, errors);
            let right = check(rhs, symbols, errors);
            let found = match (left, right) {
                (Some(left), Some(right)) => match operation_type(*op, &left, &right) {
                    Ok(t) => Some(t),
                    Err(error) => {
                        report(errors, error);
                        None
                    },
                },
                _ => None,
            };
            found
        },
        Expression::Call { callee, args } => {
            let routine = find_routine(symbols, &callee.name);
            let mut inferred = true;
            let mut fit = true;
            let mut i: usize = 0;
            while i < args.len()
                invariant
                    i <= args.len(),
                    table == owned(symbols),
                    *expr == (Expression::Call { callee: *callee, args: *args }),
                    reasons(errors@) == before + arguments_check(args@, i as int, table),
                    inferred == (forall|k: int|
                        0 <= k < i ==> (#[trigger] infer_model(*args@[k], table)) is Ok),
                    routine is Ok ==> fit == (i <= routine->Ok_0.parameters@.len() && forall|k: int|
                        0 <= k < i ==> (#[trigger] infer_model(*args@[k], table)) == Ok::<
                            TypeView,
                            Seq<char>,
                        >(routine->Ok_0.parameters@[k]@)),
                decreases args.len() - i,
            {
                proof {
                    assert(decreases_to!(expr->args => expr->args[i as int]));
                }
                let found = check(&args[i], symbols, errors);
                match found {
                    None => {
                        inferred = false;
                        fit = false;
                    },
                    Some(t) => {
                        if let Ok(routine) = &routine {
                            if i >= routine.parameters.len() || !same_type(
                                &t,
                                &routine.parameters[i],
                            ) {
                                fit = false;
                            }
                        }
                    },
                }
                i += 1;
            }
            match routine {
                Err(error) => {
                    report(errors, error);
                    None
                },
                Ok(routine) => {
                    if inferred && !(fit && args.len() == routine.parameters.len()) {
                        let name = callee.name.as_str();
                        report(errors, reason_of("arguments do not fit routine `", name, "`", ""));
                        proof {
                            reveal_strlit("");
                        }
                    }
                    Some(share(&routine.result))
                },
            }
        },
    }
}

/// Checks an lvalue and everything in it, adds what is wrong to the list
/// and hands back the type of what the lvalue names, if it has one.
pub fn check_lvalue(
    lvalue: &LvalueExpression,
    symbols: Option<&SymbolTable>,
    errors: &mut Vec<TypeInferenceError>,
) -> (found: Option<Rc<Type>>)
    ensures
        reasons(final(errors)@) == reasons(old(errors)@) + lvalue_check(*lvalue, owned(symbols)),
        found_type(found, lvalue_model(*lvalue, owned(symbols))),
    decreases *lvalue,
{
    match lvalue {
        LvalueExpression::Identifier(identifier) => {
            match find_variable(symbols, &identifier.name) {
                Ok(variable) => {
                    Some(share(&variable.t))
                },
                Err(error) => {
                    report(errors, error);
                    None
                },
            }
        },
        LvalueExpression::Member { lhs, member_name } => {
            let record = check_lvalue(lhs, symbols, errors);
            let found = match record {
                Some(t) => match field_type(&t, &member_name.name) {
                    Ok(t) => Some(t),
                    Err(error) => {
                        report(errors, error);
                        None
                    },
                },
                None => None,
            };
            found
        },
        LvalueExpression::Index { lhs, index } => {
            let array = check_lvalue(lhs, symbols, errors);
            let position = check(index, symbols, errors);
            let found = match (array, position) {
                (Some(array), Some(position)) => match element_type(&array, &position) {
                    Ok(t) => Some(t),
                    Err(error) => {
                        report(errors, error);
                        None
                    },
                },
                _ => None,
            };
            found
        },
    }
}

/// Everything that is wrong with an expression, in the order of its
/// parts. An empty list says that the expression is well typed.
pub fn typecheck(expr: &Expression, symbols: Option<&SymbolTable>) -> (errors: Vec<
    TypeInferenceError,
>)
    ensures
        reasons(errors@) == check_model(*expr, owned(symbols)),
{
    let mut errors: Vec<TypeInferenceError> = Vec::new();
    check(expr, symbols, &mut errors);
    errors
}

/// An expression with nothing wrong in it has a type.
pub proof fn lemma_checked_has_type(expr: &Expression, symbols: Option<SymbolTable>)
    requires
        check_model(*expr, symbols).len() == 0,
    ensures
        infer_model(*expr, symbols) is Ok,
    decreases *expr,
{
    match expr {
        Expression::LvalueToRvalue(lvalue) => {
            lemma_checked_lvalue_has_type(&**lvalue, symbols);
        },
        Expression::Binop { op, lhs, rhs } => {
            lemma_checked_has_type(&**lhs, symbols);
            lemma_checked_has_type(&**rhs, symbols);
        },
        _ => {},
    }
}

/// An lvalue with nothing wrong in it names something of a type.
pub proof fn lemma_checked_lvalue_has_type(lvalue: &LvalueExpression, symbols: Option<SymbolTable>)
    requires
        lvalue_check(*lvalue, symbols).len() == 0,
    ensures
        lvalue_model(*lvalue, symbols) is Ok,
    decreases *lvalue,
{
    match lvalue {
        LvalueExpression::Identifier(_) => {},
        LvalueExpression::Member { lhs, .. } => {
            lemma_checked_lvalue_has_type(&**lhs, symbols);
        },
        LvalueExpression::Index { lhs, index } => {
            lemma_checked_lvalue_has_type(&**lhs, symbols);
            lemma_checked_has_type(&**index, symbols);
        },
    }
}

} // verus!
