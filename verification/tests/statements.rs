use std::rc::Rc;

use imperative_compiler::ast::{
    ArrayDeclaration, BinaryOperator, Block, BlockElement, BoolLiteral, Expression, FieldDeclaration, Identifier,
    IntegerLiteral, LoopOrder, LvalueExpression, RecordDeclaration, SimpleDeclaration, Statement,
    Type,
};
use imperative_compiler::bytecode::{
    Bytecode, FunctionRecord, FunctionTable, Location, Module, TypeId,
};
use imperative_compiler::operators::SemanticBinaryOperator;
use imperative_compiler::registry::TypeRegistry;
use imperative_compiler::statements::{
    lower_block, lower_declaration, lower_routine, lower_statement, Routine,
};
use imperative_compiler::typing::{RoutineSymbol, SymbolTable, VariableSymbol};

fn name(text: &str) -> Identifier {
    Identifier { name: text.to_string() }
}

fn number(value: i64) -> Rc<Expression> {
    Rc::new(Expression::IntegerLiteral(IntegerLiteral { repr: value.to_string(), value }))
}

fn load(text: &str) -> Rc<Expression> {
    Rc::new(Expression::LvalueToRvalue(Rc::new(LvalueExpression::Identifier(name(text)))))
}

fn block(statements: Vec<Statement>) -> Block {
    Block { elements: statements.into_iter().map(|s| BlockElement::Stmt(Rc::new(s))).collect() }
}

fn assign(text: &str, value: i64) -> Statement {
    Statement::Assignment { lhs: name(text), rhs: number(value) }
}

fn symbols() -> SymbolTable {
    SymbolTable {
        variables: vec![
            VariableSymbol { name: "i".to_string(), t: Rc::new(Type::Int), location: Location::Local(0) },
            VariableSymbol { name: "n".to_string(), t: Rc::new(Type::Int), location: Location::Argument(0) },
            VariableSymbol { name: "g".to_string(), t: Rc::new(Type::Bool), location: Location::Global(3) },
        ],
        routines: vec![RoutineSymbol {
            name: "count".to_string(),
            parameters: vec![Rc::new(Type::Int)],
            result: Rc::new(Type::Int),
            label: 100,
        }],
    }
}

fn lowered(statement: &Statement, next: u64) -> (Vec<Bytecode>, u64) {
    let table = symbols();
    let registry = TypeRegistry::new();
    let mut next = next;
    let mut code = Vec::new();
    lower_statement(statement, Some(&table), &registry, &mut next, &mut code).unwrap();
    (code, next)
}

const I: Location = Location::Local(0);

#[test]
fn assignment_print_and_return() {
    assert_eq!(
        lowered(&assign("i", 5), 7),
        (vec![Bytecode::IntConst { value: 5 }, Bytecode::Store { loc: I }], 7)
    );
    assert_eq!(
        lowered(&Statement::Print { value: load("g") }, 0),
        (
            vec![
                Bytecode::Load { loc: Location::Global(3) },
                Bytecode::Print { type_id: TypeId(2) }
            ],
            0
        )
    );
    assert_eq!(
        lowered(&Statement::Return { value: load("n") }, 0),
        (vec![Bytecode::Load { loc: Location::Argument(0) }, Bytecode::Ret], 0)
    );
}

#[test]
fn branch_takes_two_labels() {
    let both = Statement::If {
        condition: load("g"),
        on_true: block(vec![assign("i", 1)]),
        on_false: Some(block(vec![assign("i", 2)])),
    };
    assert_eq!(
        lowered(&both, 10),
        (
            vec![
                Bytecode::Load { loc: Location::Global(3) },
                Bytecode::JumpZero { label: 10 },
                Bytecode::IntConst { value: 1 },
                Bytecode::Store { loc: I },
                Bytecode::Jump { label: 11 },
                Bytecode::Label { id: 10 },
                Bytecode::IntConst { value: 2 },
                Bytecode::Store { loc: I },
                Bytecode::Label { id: 11 },
            ],
            12
        )
    );
    let one = Statement::If {
        condition: load("g"),
        on_true: block(vec![]),
        on_false: None,
    };
    assert_eq!(
        lowered(&one, 0),
        (
            vec![
                Bytecode::Load { loc: Location::Global(3) },
                Bytecode::JumpZero { label: 0 },
                Bytecode::Jump { label: 1 },
                Bytecode::Label { id: 0 },
                Bytecode::Label { id: 1 },
            ],
            2
        )
    );
}

#[test]
fn loops_nest_with_fresh_labels() {
    let inner = Statement::While { condition: load("g"), body: block(vec![assign("i", 0)]) };
    let outer = Statement::While { condition: load("g"), body: block(vec![inner]) };
    assert_eq!(
        lowered(&outer, 0),
        (
            vec![
                Bytecode::Label { id: 0 },
                Bytecode::Load { loc: Location::Global(3) },
                Bytecode::JumpZero { label: 1 },
                Bytecode::Label { id: 2 },
                Bytecode::Load { loc: Location::Global(3) },
                Bytecode::JumpZero { label: 3 },
                Bytecode::IntConst { value: 0 },
                Bytecode::Store { loc: I },
                Bytecode::Jump { label: 2 },
                Bytecode::Label { id: 3 },
                Bytecode::Jump { label: 0 },
                Bytecode::Label { id: 1 },
            ],
            4
        )
    );
}

#[test]
fn counting_loop_in_both_orders() {
    let counting = |order| Statement::For {
        identifier: name("i"),
        from: number(1),
        to: Some(load("n")),
        order,
        body: Block {
            elements: vec![BlockElement::Decl(Rc::new(SimpleDeclaration { name: name("i") }))],
        },
    };
    let n = Location::Argument(0);
    assert_eq!(
        lowered(&counting(LoopOrder::Direct), 4),
        (
            vec![
                Bytecode::IntConst { value: 1 },
                Bytecode::Store { loc: I },
                Bytecode::Label { id: 4 },
                Bytecode::Load { loc: I },
                Bytecode::Load { loc: n },
                Bytecode::BinOp { op: SemanticBinaryOperator::IntLe },
                Bytecode::JumpZero { label: 5 },
                Bytecode::Load { loc: I },
                Bytecode::IntConst { value: 1 },
                Bytecode::BinOp { op: SemanticBinaryOperator::IntAdd },
                Bytecode::Store { loc: I },
                Bytecode::Jump { label: 4 },
                Bytecode::Label { id: 5 },
            ],
            6
        )
    );
    assert_eq!(
        lowered(&counting(LoopOrder::Reversed), 4),
        (
            vec![
                Bytecode::Load { loc: n },
                Bytecode::Store { loc: I },
                Bytecode::Label { id: 4 },
                Bytecode::Load { loc: I },
                Bytecode::IntConst { value: 1 },
                Bytecode::BinOp { op: SemanticBinaryOperator::IntGe },
                Bytecode::JumpZero { label: 5 },
                Bytecode::Load { loc: I },
                Bytecode::IntConst { value: 1 },
                Bytecode::BinOp { op: SemanticBinaryOperator::IntSub },
                Bytecode::Store { loc: I },
                Bytecode::Jump { label: 4 },
                Bytecode::Label { id: 5 },
            ],
            6
        )
    );
}

#[test]
fn statement_errors() {
    let table = symbols();
    let registry = TypeRegistry::new();
    let fails = |statement: &Statement, next: u64| {
        let mut next = next;
        let mut code = Vec::new();
        lower_statement(statement, Some(&table), &registry, &mut next, &mut code).unwrap_err().reason
    };
    assert_eq!(fails(&assign("missing", 1), 0), "unresolved name `missing`");
    let unbounded = Statement::For {
        identifier: name("i"),
        from: number(1),
        to: None,
        order: LoopOrder::Direct,
        body: block(vec![]),
    };
    assert_eq!(fails(&unbounded, 0), "loop without an upper bound");
    let forever = Statement::While { condition: load("g"), body: block(vec![]) };
    assert_eq!(fails(&forever, u64::MAX - 1), "out of labels");
    let branch = Statement::If { condition: load("g"), on_true: block(vec![]), on_false: None };
    assert_eq!(fails(&branch, u64::MAX), "out of labels");
    let record = Rc::new(Expression::LvalueToRvalue(Rc::new(LvalueExpression::Identifier(name("r")))));
    let mut with_record = symbols();
    with_record.variables.push(VariableSymbol {
        name: "r".to_string(),
        t: Rc::new(Type::Record(RecordDeclaration {
            fields: vec![FieldDeclaration { name: name("x"), t: Rc::new(Type::Int) }],
        })),
        location: Location::Local(1),
    });
    let mut next = 0;
    let mut code = Vec::new();
    let error = lower_statement(
        &Statement::Print { value: record },
        Some(&with_record),
        &registry,
        &mut next,
        &mut code,
    )
    .unwrap_err();
    assert_eq!(error.reason, "no type number for record");
    let mut code = Vec::new();
    let error = lower_block(
        &block(vec![assign("i", 1), assign("missing", 2), assign("other", 3)]),
        Some(&table),
        &registry,
        &mut next,
        &mut code,
    )
    .unwrap_err();
    assert_eq!(error.reason, "unresolved name `missing`");
}

#[test]
fn routine_becomes_a_module() {
    let table = symbols();
    let registry = TypeRegistry::new();
    let body = block(vec![
        assign("i", 0),
        Statement::While {
            condition: Rc::new(Expression::Binop {
                op: BinaryOperator::Lg,
                lhs: load("i"),
                rhs: load("n"),
            }),
            body: block(vec![Statement::Assignment {
                lhs: name("i"),
                rhs: Rc::new(Expression::Binop {
                    op: BinaryOperator::Add,
                    lhs: load("i"),
                    rhs: Rc::new(Expression::BoolToInt(Rc::new(Expression::BoolLiteral(
                        BoolLiteral::True,
                    )))),
                }),
            }]),
        },
        Statement::Print { value: load("i") },
        Statement::Return {
            value: Rc::new(Expression::Call { callee: name("count"), args: vec![load("i")] }),
        },
    ]);
    let routine = Routine {
        name: "count".to_string(),
        label: 100,
        parameters: vec![Rc::new(Type::Int)],
        result: Rc::new(Type::Int),
        local_count: 1,
        body,
    };
    let mut next = 0;
    let mut code = Vec::new();
    let mut functions = FunctionTable(vec![]);
    lower_routine(&routine, Some(&table), &registry, &mut next, &mut code, &mut functions).unwrap();
    assert_eq!(next, 2);
    assert_eq!(
        functions,
        FunctionTable(vec![FunctionRecord {
            name: "count".to_string(),
            label_id: 100,
            args: vec![TypeId(0)],
            result: TypeId(0),
        }])
    );
    assert_eq!(
        code[..2],
        [Bytecode::Label { id: 100 }, Bytecode::Enter { arguments_count: 1, local_count: 1 }]
    );
    assert_eq!(code.len(), 2 + 2 + 11 + 2 + 3);
    let module = Module { global_count: 4, code, functions, rtti: registry.table() };
    let bytes = module.encode().unwrap();
    assert_eq!(Module::decode(&bytes), Ok(module));
}

#[test]
fn routine_errors() {
    let registry = TypeRegistry::new();
    let routine = |label, result| Routine {
        name: "f".to_string(),
        label,
        parameters: vec![],
        result: Rc::new(result),
        local_count: 0,
        body: block(vec![]),
    };
    let fails = |routine: &Routine| {
        let mut next = 0;
        let mut code = Vec::new();
        let mut functions = FunctionTable(vec![]);
        lower_routine(routine, None, &registry, &mut next, &mut code, &mut functions)
            .unwrap_err()
            .reason
    };
    assert_eq!(fails(&routine(1 << 63, Type::Int)), "label out of range");
    assert_eq!(fails(&routine(1, Type::Alias("T".to_string()))), "no type number for T");
}

#[test]
fn declaration_allocates_records_and_arrays() {
    let record = Rc::new(Type::Record(RecordDeclaration {
        fields: vec![
            FieldDeclaration { name: name("x"), t: Rc::new(Type::Int) },
            FieldDeclaration { name: name("y"), t: Rc::new(Type::Int) },
            FieldDeclaration { name: name("z"), t: Rc::new(Type::Real) },
        ],
    }));
    let array = |length| Rc::new(Type::Array(ArrayDeclaration { t: Rc::new(Type::Bool), length }));
    let mut table = symbols();
    table.variables.push(VariableSymbol { name: "r".to_string(), t: record, location: Location::Local(1) });
    table.variables.push(VariableSymbol { name: "a".to_string(), t: array(Some(7)), location: Location::Global(0) });
    table.variables.push(VariableSymbol { name: "b".to_string(), t: array(None), location: Location::Global(1) });
    let mut code = Vec::new();
    for variable in ["i", "r", "a", "b"] {
        lower_declaration(&SimpleDeclaration { name: name(variable) }, Some(&table), &mut code).unwrap();
    }
    assert_eq!(
        code,
        vec![
            Bytecode::AllocRecord { size: 24 },
            Bytecode::Store { loc: Location::Local(1) },
            Bytecode::AllocArray { element_size: 8, size: 7 },
            Bytecode::Store { loc: Location::Global(0) },
        ]
    );
    let error = lower_declaration(&SimpleDeclaration { name: name("q") }, Some(&table), &mut code);
    assert_eq!(error.unwrap_err().reason, "unresolved name `q`");
    let error = lower_declaration(&SimpleDeclaration { name: name("i") }, None, &mut code);
    assert_eq!(error.unwrap_err().reason, "no symbol table");
}
