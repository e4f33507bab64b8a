use std::rc::Rc;

use imperative_compiler::ast::{
    ArrayDeclaration, BinaryOperator, Block, BlockElement, BoolLiteral, Expression,
    FieldDeclaration, Identifier, IntegerLiteral, LvalueExpression, RealLiteral,
    RecordDeclaration, SimpleDeclaration, Statement, Type,
};
use imperative_compiler::statements::{lower_routine, Routine};
use imperative_compiler::bytecode::{
    ArrayRTTI, Bytecode, FunctionTable, Location, Module, PrimitiveRTTI, RTTIElement, RecordRTTI,
    TypeId, RTTI,
};
use imperative_compiler::lowering::{allocation, lower, lower_lvalue, select_operator};
use imperative_compiler::operators::SemanticBinaryOperator;
use imperative_compiler::registry::{RegistryError, TypeRegistry};
use imperative_compiler::typing::{RoutineSymbol, SymbolTable, VariableSymbol};

fn name(text: &str) -> Identifier {
    Identifier { name: text.to_string() }
}

fn field(text: &str, t: Type) -> FieldDeclaration {
    FieldDeclaration { name: name(text), t: Rc::new(t) }
}

fn record(fields: Vec<FieldDeclaration>) -> Rc<Type> {
    Rc::new(Type::Record(RecordDeclaration { fields }))
}

fn array(t: Type, length: Option<usize>) -> Type {
    Type::Array(ArrayDeclaration { t: Rc::new(t), length })
}

fn point() -> Rc<Type> {
    record(vec![field("x", Type::Int), field("y", Type::Int)])
}

fn integer(value: i64) -> Rc<Expression> {
    Rc::new(Expression::IntegerLiteral(IntegerLiteral { repr: value.to_string(), value }))
}

fn primitive(id: u32) -> RTTIElement {
    RTTIElement::Primitive(PrimitiveRTTI { id: TypeId(id) })
}

#[test]
fn new_registry_holds_the_primitives() {
    let registry = TypeRegistry::new();
    assert_eq!(registry.table(), RTTI(vec![primitive(0), primitive(1), primitive(2)]));
    let mut registry = registry;
    assert_eq!(registry.register(&Rc::new(Type::Int)), Ok(TypeId(0)));
    assert_eq!(registry.register(&Rc::new(Type::Real)), Ok(TypeId(1)));
    assert_eq!(registry.register(&Rc::new(Type::Bool)), Ok(TypeId(2)));
    assert_eq!(registry.table().0.len(), 3);
}

#[test]
fn record_of_two_integers_end_to_end() {
    let mut registry = TypeRegistry::new();
    let id = registry.declare(&"Point".to_string(), &point()).unwrap();
    assert_eq!(id, TypeId(3));
    assert_eq!(
        registry.table().0[3],
        RTTIElement::Record(RecordRTTI { id: TypeId(3), field_ids: vec![TypeId(0), TypeId(0)] })
    );
    assert_eq!(allocation(&point()), Some(Bytecode::AllocRecord { size: 16 }));

    let symbols = SymbolTable {
        variables: vec![VariableSymbol {
            name: "p".to_string(),
            t: point(),
            location: Location::Local(0),
        }],
        routines: vec![],
    };
    let member = |field: &str| LvalueExpression::Member {
        lhs: Rc::new(LvalueExpression::Identifier(name("p"))),
        member_name: name(field),
    };
    let mut code = Vec::new();
    lower_lvalue(&member("x"), Some(&symbols), &mut code).unwrap();
    lower_lvalue(&member("y"), Some(&symbols), &mut code).unwrap();
    assert_eq!(
        code,
        vec![
            Bytecode::Load { loc: Location::Local(0) },
            Bytecode::GetField { field_offset: 0 },
            Bytecode::Load { loc: Location::Local(0) },
            Bytecode::GetField { field_offset: 8 },
        ]
    );

    let module = Module {
        global_count: 0,
        code,
        functions: FunctionTable(vec![]),
        rtti: registry.table(),
    };
    let bytes = module.encode().unwrap();
    assert_eq!(Module::decode(&bytes), Ok(module));

    let load = |field: &str| Rc::new(Expression::LvalueToRvalue(Rc::new(member(field))));
    let routine = Routine {
        name: "corner".to_string(),
        label: 1,
        parameters: vec![],
        result: Rc::new(Type::Int),
        local_count: 1,
        body: Block {
            elements: vec![
                BlockElement::Decl(Rc::new(SimpleDeclaration { name: name("p") })),
                BlockElement::Stmt(Rc::new(Statement::Print { value: load("x") })),
                BlockElement::Stmt(Rc::new(Statement::Return { value: load("y") })),
            ],
        },
    };
    let mut next = 0;
    let mut code = Vec::new();
    let mut functions = FunctionTable(vec![]);
    lower_routine(&routine, Some(&symbols), &registry, &mut next, &mut code, &mut functions)
        .unwrap();
    assert_eq!(
        code,
        vec![
            Bytecode::Label { id: 1 },
            Bytecode::Enter { arguments_count: 0, local_count: 1 },
            Bytecode::AllocRecord { size: 16 },
            Bytecode::Store { loc: Location::Local(0) },
            Bytecode::Load { loc: Location::Local(0) },
            Bytecode::GetField { field_offset: 0 },
            Bytecode::Print { type_id: TypeId(0) },
            Bytecode::Load { loc: Location::Local(0) },
            Bytecode::GetField { field_offset: 8 },
            Bytecode::Ret,
        ]
    );
    let module = Module { global_count: 0, code, functions, rtti: registry.table() };
    let bytes = module.encode().unwrap();
    assert_eq!(Module::decode(&bytes), Ok(module));
}

#[test]
fn numbers_follow_the_declarations_depth_first() {
    let mut registry = TypeRegistry::new();
    let inner = record(vec![field("flag", Type::Bool)]);
    let outer = record(vec![
        field("first", Type::Record(RecordDeclaration { fields: vec![field("flag", Type::Bool)] })),
        field("many", array(Type::Real, None)),
        field("again", Type::Record(RecordDeclaration { fields: vec![field("flag", Type::Bool)] })),
    ]);
    assert_eq!(registry.declare(&"Outer".to_string(), &outer), Ok(TypeId(3)));
    assert_eq!(registry.register(&inner), Ok(TypeId(4)));
    assert_eq!(registry.register(&Rc::new(array(Type::Real, None))), Ok(TypeId(5)));
    assert_eq!(
        registry.table(),
        RTTI(vec![
            primitive(0),
            primitive(1),
            primitive(2),
            RTTIElement::Record(RecordRTTI {
                id: TypeId(3),
                field_ids: vec![TypeId(4), TypeId(5), TypeId(4)]
            }),
            RTTIElement::Record(RecordRTTI { id: TypeId(4), field_ids: vec![TypeId(2)] }),
            RTTIElement::Array(ArrayRTTI { id: TypeId(5), element_id: TypeId(1) }),
        ])
    );
}

#[test]
fn same_input_gets_the_same_numbers() {
    let run = || {
        let mut registry = TypeRegistry::new();
        let list = record(vec![
            field("value", Type::Int),
            field("next", array(Type::Alias("List".to_string()), None)),
        ]);
        let id = registry.declare(&"List".to_string(), &list);
        (id, registry.table())
    };
    assert_eq!(run(), run());
}

#[test]
fn record_may_hold_an_array_of_itself() {
    let mut registry = TypeRegistry::new();
    let list = record(vec![
        field("value", Type::Int),
        field("next", array(Type::Alias("List".to_string()), None)),
    ]);
    assert_eq!(registry.declare(&"List".to_string(), &list), Ok(TypeId(3)));
    assert_eq!(
        registry.table().0[3..],
        [
            RTTIElement::Record(RecordRTTI {
                id: TypeId(3),
                field_ids: vec![TypeId(0), TypeId(4)]
            }),
            RTTIElement::Array(ArrayRTTI { id: TypeId(4), element_id: TypeId(3) }),
        ]
    );
    assert_eq!(registry.register(&Rc::new(Type::Alias("List".to_string()))), Ok(TypeId(3)));
}

#[test]
fn record_may_not_hold_itself() {
    let mut registry = TypeRegistry::new();
    let own = record(vec![field("me", Type::Alias("Own".to_string()))]);
    assert_eq!(registry.declare(&"Own".to_string(), &own), Err(RegistryError::DirectlyRecursive));
}

#[test]
fn unknown_alias_is_an_error() {
    let mut registry = TypeRegistry::new();
    assert_eq!(
        registry.register(&Rc::new(Type::Alias("Nobody".to_string()))),
        Err(RegistryError::UnresolvedAlias)
    );
    let holder = record(vec![field("x", Type::Alias("Nobody".to_string()))]);
    assert_eq!(registry.register(&holder), Err(RegistryError::UnresolvedAlias));
}

#[test]
fn alias_of_a_primitive() {
    let mut registry = TypeRegistry::new();
    assert_eq!(registry.declare(&"Count".to_string(), &Rc::new(Type::Int)), Ok(TypeId(0)));
    assert_eq!(registry.register(&Rc::new(Type::Alias("Count".to_string()))), Ok(TypeId(0)));
    assert_eq!(registry.resolve(&"Count".to_string()), Some(TypeId(0)));
    assert_eq!(registry.resolve(&"Other".to_string()), None);
    assert_eq!(registry.find(&Type::Int), Some(0));
    assert_eq!(registry.find(&point()), None);
}

#[test]
fn allocation_of_each_type() {
    assert_eq!(allocation(&Type::Int), None);
    assert_eq!(allocation(&Type::Alias("T".to_string())), None);
    assert_eq!(allocation(&array(Type::Int, None)), None);
    assert_eq!(
        allocation(&array(Type::Int, Some(5))),
        Some(Bytecode::AllocArray { element_size: 8, size: 5 })
    );
    assert_eq!(allocation(&record(vec![])), Some(Bytecode::AllocRecord { size: 0 }));
}

#[test]
fn expression_is_lowered_operands_first() {
    let symbols = SymbolTable {
        variables: vec![
            VariableSymbol {
                name: "a".to_string(),
                t: Rc::new(array(Type::Real, Some(3))),
                location: Location::Global(2),
            },
            VariableSymbol { name: "b".to_string(), t: Rc::new(Type::Bool), location: Location::Argument(1) },
        ],
        routines: vec![RoutineSymbol {
            name: "half".to_string(),
            parameters: vec![Rc::new(Type::Int)],
            result: Rc::new(Type::Real),
            label: 12,
        }],
    };
    let element = Rc::new(Expression::LvalueToRvalue(Rc::new(LvalueExpression::Index {
        lhs: Rc::new(LvalueExpression::Identifier(name("a"))),
        index: Rc::new(Expression::BoolToInt(Rc::new(Expression::LvalueToRvalue(Rc::new(
            LvalueExpression::Identifier(name("b")),
        ))))),
    })));
    let call = Rc::new(Expression::Call {
        callee: name("half"),
        args: vec![Rc::new(Expression::RealToInt(Rc::new(Expression::RealLiteral(RealLiteral {
            repr: "2.5".to_string(),
            bits: 2.5f64.to_bits(),
        }))))],
    });
    let expr = Expression::Binop { op: BinaryOperator::Lg, lhs: element, rhs: call };
    let mut code = vec![Bytecode::Dup];
    let t = lower(&expr, Some(&symbols), &mut code).unwrap();
    assert_eq!(*t, Type::Bool);
    assert_eq!(
        code,
        vec![
            Bytecode::Dup,
            Bytecode::Load { loc: Location::Global(2) },
            Bytecode::Load { loc: Location::Argument(1) },
            Bytecode::GetIndex,
            Bytecode::RealConst { bits: 2.5f64.to_bits() },
            Bytecode::RealToInt,
            Bytecode::Call { function_label: 12 },
            Bytecode::BinOp { op: SemanticBinaryOperator::RealLg },
        ]
    );
}

#[test]
fn literals_and_conversions_are_lowered() {
    let mut code = Vec::new();
    lower(&Expression::BoolLiteral(BoolLiteral::True), None, &mut code).unwrap();
    lower(&Expression::BoolLiteral(BoolLiteral::False), None, &mut code).unwrap();
    lower(&Expression::IntToBool(integer(1)), None, &mut code).unwrap();
    lower(&Expression::IntToReal(integer(-7)), None, &mut code).unwrap();
    assert_eq!(
        code,
        vec![
            Bytecode::IntConst { value: 1 },
            Bytecode::IntConst { value: 0 },
            Bytecode::IntConst { value: 1 },
            Bytecode::IntToBool,
            Bytecode::IntConst { value: -7 },
            Bytecode::IntToReal,
        ]
    );
}

#[test]
fn lowering_fails_as_inference_does() {
    let mut code = Vec::new();
    let expr = Expression::Binop { op: BinaryOperator::Add, lhs: integer(1), rhs: Rc::new(Expression::BoolLiteral(BoolLiteral::True)) };
    let error = lower(&expr, None, &mut code).unwrap_err();
    assert_eq!(error.reason, "operator cannot take integer and boolean");
    let load = Expression::LvalueToRvalue(Rc::new(LvalueExpression::Identifier(name("x"))));
    assert_eq!(lower(&load, None, &mut code).unwrap_err().reason, "no symbol table");
}

#[test]
fn operators_by_operand_type() {
    assert_eq!(select_operator(BinaryOperator::Add, &Type::Int), SemanticBinaryOperator::IntAdd);
    assert_eq!(select_operator(BinaryOperator::Add, &Type::Real), SemanticBinaryOperator::RealAdd);
    assert_eq!(select_operator(BinaryOperator::Mod, &Type::Int), SemanticBinaryOperator::IntMod);
    assert_eq!(select_operator(BinaryOperator::Eq, &Type::Bool), SemanticBinaryOperator::IntEq);
    assert_eq!(select_operator(BinaryOperator::Neq, &Type::Real), SemanticBinaryOperator::RealNeq);
    assert_eq!(select_operator(BinaryOperator::And, &Type::Bool), SemanticBinaryOperator::BoolAnd);
    assert_eq!(select_operator(BinaryOperator::Or, &Type::Bool), SemanticBinaryOperator::BoolOr);
    assert_eq!(select_operator(BinaryOperator::Xor, &Type::Bool), SemanticBinaryOperator::BoolXor);
}
