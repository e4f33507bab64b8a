use std::rc::Rc;

use imperative_compiler::ast::{
    coerce, is_primtive, same_type, ArrayDeclaration, BinaryOperator, BoolLiteral, Expression,
    FieldDeclaration, Identifier, IntegerLiteral, LvalueExpression, RealLiteral, RecordDeclaration,
    Type,
};
use imperative_compiler::bytecode::Location;
use imperative_compiler::typing::{infer, typecheck, RoutineSymbol, SymbolTable, VariableSymbol};

fn integer(value: i64) -> Rc<Expression> {
    Rc::new(Expression::IntegerLiteral(IntegerLiteral { repr: value.to_string(), value }))
}

fn real_number(value: f64) -> Rc<Expression> {
    Rc::new(Expression::RealLiteral(RealLiteral { repr: value.to_string(), bits: value.to_bits() }))
}

fn truth() -> Rc<Expression> {
    Rc::new(Expression::BoolLiteral(BoolLiteral::True))
}

fn name(text: &str) -> Identifier {
    Identifier { name: text.to_string() }
}

fn point() -> Rc<Type> {
    Rc::new(Type::Record(RecordDeclaration {
        fields: vec![
            FieldDeclaration { name: name("x"), t: Rc::new(Type::Int) },
            FieldDeclaration { name: name("y"), t: Rc::new(Type::Int) },
        ],
    }))
}

fn symbols() -> SymbolTable {
    SymbolTable {
        variables: vec![
            VariableSymbol { name: "p".to_string(), t: point(), location: Location::Global(0) },
            VariableSymbol {
                name: "a".to_string(),
                t: Rc::new(Type::Array(ArrayDeclaration { t: Rc::new(Type::Real), length: Some(3) })),
                location: Location::Local(1),
            },
            VariableSymbol {
                name: "p".to_string(),
                t: Rc::new(Type::Bool),
                location: Location::Argument(0),
            },
        ],
        routines: vec![RoutineSymbol {
            name: "half".to_string(),
            parameters: vec![Rc::new(Type::Int)],
            result: Rc::new(Type::Real),
            label: 4,
        }],
    }
}

fn variable(text: &str) -> Rc<LvalueExpression> {
    Rc::new(LvalueExpression::Identifier(name(text)))
}

#[test]
fn primitives_are_primitive() {
    assert!(is_primtive(&Type::Int));
    assert!(is_primtive(&Type::Real));
    assert!(is_primtive(&Type::Bool));
    assert!(!is_primtive(&Type::Alias("T".to_string())));
    assert!(!is_primtive(&point()));
}

#[test]
fn types_compare_by_structure() {
    assert!(same_type(&point(), &point()));
    assert!(same_type(&Type::Alias("T".to_string()), &Type::Alias("T".to_string())));
    assert!(!same_type(&Type::Alias("T".to_string()), &Type::Alias("U".to_string())));
    let fixed = Type::Array(ArrayDeclaration { t: Rc::new(Type::Int), length: Some(3) });
    let open = Type::Array(ArrayDeclaration { t: Rc::new(Type::Int), length: None });
    assert!(!same_type(&fixed, &open));
    assert!(!same_type(&point(), &Type::Int));
}

#[test]
fn coercion_table() {
    let all = [Type::Int, Type::Real, Type::Bool, Type::Alias("T".to_string())];
    for source in &all {
        for dest in &all {
            let expr = integer(1);
            let result = coerce(expr.clone(), source, dest);
            let expected = match (source, dest) {
                _ if source == dest => Some(expr.clone()),
                (Type::Bool, Type::Int) => Some(Rc::new(Expression::BoolToInt(expr.clone()))),
                (Type::Real, Type::Int) => Some(Rc::new(Expression::RealToInt(expr.clone()))),
                (Type::Int, Type::Real) => Some(Rc::new(Expression::IntToReal(expr.clone()))),
                (Type::Int, Type::Bool) => Some(Rc::new(Expression::IntToBool(expr.clone()))),
                _ => None,
            };
            assert_eq!(result.as_ref().ok(), expected.as_ref(), "{source:?} to {dest:?}");
        }
    }
    let error = coerce(integer(1), &Type::Real, &Type::Bool).unwrap_err();
    assert_eq!(error.reason, "no conversion from real to boolean");
    let error = coerce(integer(1), &point(), &Type::Alias("T".to_string())).unwrap_err();
    assert_eq!(error.reason, "no conversion from record to T");
}

#[test]
fn literals_and_conversions_have_fixed_types() {
    assert_eq!(*infer(&integer(1), None).unwrap(), Type::Int);
    assert_eq!(*infer(&real_number(1.5), None).unwrap(), Type::Real);
    assert_eq!(*infer(&truth(), None).unwrap(), Type::Bool);
    assert_eq!(*infer(&Expression::BoolToInt(truth()), None).unwrap(), Type::Int);
    assert_eq!(*infer(&Expression::RealToInt(real_number(1.5)), None).unwrap(), Type::Int);
    assert_eq!(*infer(&Expression::IntToBool(integer(1)), None).unwrap(), Type::Bool);
    assert_eq!(*infer(&Expression::IntToReal(integer(1)), None).unwrap(), Type::Real);
}

#[test]
fn names_need_a_symbol_table() {
    let call = Expression::Call { callee: name("half"), args: vec![integer(2)] };
    assert_eq!(infer(&call, None).unwrap_err().reason, "no symbol table");
    let table = symbols();
    assert_eq!(*infer(&call, Some(&table)).unwrap(), Type::Real);
    let unknown = Expression::Call { callee: name("third"), args: vec![] };
    assert_eq!(infer(&unknown, Some(&table)).unwrap_err().reason, "unresolved name `third`");
    let load = Expression::LvalueToRvalue(variable("q"));
    assert_eq!(infer(&load, Some(&table)).unwrap_err().reason, "unresolved name `q`");
}

#[test]
fn later_symbol_hides_earlier() {
    let table = symbols();
    let load = Expression::LvalueToRvalue(variable("p"));
    assert_eq!(*infer(&load, Some(&table)).unwrap(), Type::Bool);
}

#[test]
fn members_and_elements() {
    let mut table = symbols();
    table.variables.pop();
    let member = Expression::LvalueToRvalue(Rc::new(LvalueExpression::Member {
        lhs: variable("p"),
        member_name: name("y"),
    }));
    assert_eq!(*infer(&member, Some(&table)).unwrap(), Type::Int);
    let missing = Expression::LvalueToRvalue(Rc::new(LvalueExpression::Member {
        lhs: variable("p"),
        member_name: name("z"),
    }));
    assert_eq!(infer(&missing, Some(&table)).unwrap_err().reason, "no field `z` in record");
    let element = Expression::LvalueToRvalue(Rc::new(LvalueExpression::Index {
        lhs: variable("a"),
        index: integer(0),
    }));
    assert_eq!(*infer(&element, Some(&table)).unwrap(), Type::Real);
    let bad = Expression::LvalueToRvalue(Rc::new(LvalueExpression::Index {
        lhs: variable("a"),
        index: real_number(0.0),
    }));
    assert_eq!(infer(&bad, Some(&table)).unwrap_err().reason, "cannot index array with real");
}

#[test]
fn operator_families() {
    let binop = |op, lhs, rhs| Expression::Binop { op, lhs, rhs };
    assert_eq!(*infer(&binop(BinaryOperator::Add, integer(1), integer(2)), None).unwrap(), Type::Int);
    assert_eq!(*infer(&binop(BinaryOperator::Mul, real_number(1.0), real_number(2.0)), None).unwrap(), Type::Real);
    assert_eq!(*infer(&binop(BinaryOperator::Le, real_number(1.0), real_number(2.0)), None).unwrap(), Type::Bool);
    assert_eq!(*infer(&binop(BinaryOperator::Eq, truth(), truth()), None).unwrap(), Type::Bool);
    assert_eq!(*infer(&binop(BinaryOperator::Xor, truth(), truth()), None).unwrap(), Type::Bool);
    assert_eq!(
        infer(&binop(BinaryOperator::Add, integer(1), real_number(2.0)), None).unwrap_err().reason,
        "operator cannot take integer and real"
    );
    assert_eq!(
        infer(&binop(BinaryOperator::Mod, real_number(1.0), real_number(2.0)), None).unwrap_err().reason,
        "operator cannot take real and real"
    );
    assert_eq!(
        infer(&binop(BinaryOperator::And, integer(1), truth()), None).unwrap_err().reason,
        "operator cannot take integer and boolean"
    );
    assert_eq!(
        infer(&binop(BinaryOperator::Add, truth(), truth()), None).unwrap_err().reason,
        "operator cannot take boolean and boolean"
    );
}

#[test]
fn well_typed_expression_has_no_errors() {
    let table = symbols();
    let expr = Expression::Binop {
        op: BinaryOperator::Add,
        lhs: Rc::new(Expression::Call { callee: name("half"), args: vec![integer(2)] }),
        rhs: Rc::new(Expression::IntToReal(integer(1))),
    };
    assert_eq!(typecheck(&expr, Some(&table)), vec![]);
    assert_eq!(*infer(&expr, Some(&table)).unwrap(), Type::Real);
}

#[test]
fn every_error_is_listed_in_order() {
    let table = symbols();
    let expr = Expression::Binop {
        op: BinaryOperator::Add,
        lhs: Rc::new(Expression::Call { callee: name("half"), args: vec![real_number(2.0)] }),
        rhs: Rc::new(Expression::Binop {
            op: BinaryOperator::Or,
            lhs: Rc::new(Expression::IntToBool(real_number(1.0))),
            rhs: integer(1),
        }),
    };
    let reasons: Vec<String> =
        typecheck(&expr, Some(&table)).into_iter().map(|error| error.reason).collect();
    assert_eq!(
        reasons,
        vec![
            "arguments do not fit routine `half`",
            "conversion takes integer, not real",
            "operator cannot take boolean and integer",
        ]
    );
}

#[test]
fn literals_are_equal_by_value() {
    let written = |repr: &str, value: f64| {
        Expression::RealLiteral(RealLiteral { repr: repr.to_string(), bits: value.to_bits() })
    };
    assert_eq!(written("1.0", 1.0), written("1.00", 1.0));
    assert_eq!(written("NaN", f64::NAN), written("nan", f64::NAN));
    assert_ne!(written("0.0", 0.0), written("-0.0", -0.0));
    assert_ne!(written("1.0", 1.0), written("1.0", 2.0));
    let counted = |repr: &str, value: i64| {
        Expression::IntegerLiteral(IntegerLiteral { repr: repr.to_string(), value })
    };
    assert_eq!(counted("+7", 7), counted("7", 7));
    assert_ne!(counted("7", 7), counted("7", 8));
}
