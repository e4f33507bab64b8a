//! What holds of lowered code: every jump leads to a label of the same
//! piece of code, every label of a piece is one of those that the piece
//! took for itself, and a routine starts as the function table asks.

use vstd::prelude::*;
use std::rc::Rc;
use crate::ast::{BlockElement, Expression, LoopOrder, LvalueExpression, Statement};
use crate::bytecode::Bytecode;
use crate::lowering::{lower_arguments_model, lower_lvalue_model, lower_model};
use crate::registry::RegistryView;
use crate::format::{first_label, function_entry_ok, label_position};
use crate::statements::{
    block_model, branch_code, declaration_model, for_code, numbers_model, routine_model,
    statement_model, while_code, Routine,
};
use crate::typing::SymbolTable;

verus! {

/// The label that a jump leads to. A call is no jump: it leads to a
/// routine, whose label stands elsewhere.
pub open spec fn jump_label(instruction: Bytecode) -> Option<u64> {
    match instruction {
        Bytecode::Jump { label } => Some(label),
        Bytecode::JumpZero { label } => Some(label),
        Bytecode::JumpNotZero { label } => Some(label),
        _ => None,
    }
}

/// The code holds the label.
pub open spec fn defines(code: Seq<Bytecode>, label: u64) -> bool {
    exists|j: int| 0 <= j < code.len() && code[j] == (Bytecode::Label { id: label })
}

/// Every jump of `part` leads to a label of `whole`.
pub open spec fn jumps_lead_into(part: Seq<Bytecode>, whole: Seq<Bytecode>) -> bool {
    forall|i: int|
        0 <= i < part.len() ==> match jump_label(#[trigger] part[i]) {
            Some(label) => defines(whole, label),
            None => true,
        }
}

/// Every label of the code is at least `low` and below `high`.
pub open spec fn labels_within(code: Seq<Bytecode>, low: int, high: int) -> bool {
    forall|i: int|
        0 <= i < code.len() ==> match #[trigger] code[i] {
            Bytecode::Label { id } => low <= id < high,
            _ => true,
        }
}

/// The code holds neither a label nor a jump.
pub open spec fn straight(code: Seq<Bytecode>) -> bool {
    forall|i: int|
        0 <= i < code.len() ==> jump_label(#[trigger] code[i]) is None && !(code[i] is Label)
}

/// Code is closed if its jumps lead to its own labels.
pub open spec fn closed(code: Seq<Bytecode>) -> bool {
    jumps_lead_into(code, code)
}

proof fn lemma_defines_inside(
    before: Seq<Bytecode>,
    code: Seq<Bytecode>,
    after: Seq<Bytecode>,
    label: u64,
)
    requires
        defines(code, label),
    ensures
        defines(before + code + after, label),
{
    let j = choose|j: int| 0 <= j < code.len() && code[j] == (Bytecode::Label { id: label });
    assert((before + code + after)[before.len() + j] == (Bytecode::Label { id: label }));
}

proof fn lemma_lead_inside(
    part: Seq<Bytecode>,
    before: Seq<Bytecode>,
    code: Seq<Bytecode>,
    after: Seq<Bytecode>,
)
    requires
        jumps_lead_into(part, code),
    ensures
        jumps_lead_into(part, before + code + after),
{
    assert forall|i: int| 0 <= i < part.len() implies match jump_label(#[trigger] part[i]) {
        Some(label) => defines(before + code + after, label),
        None => true,
    } by {
        if let Some(label) = jump_label(part[i]) {
            lemma_defines_inside(before, code, after, label);
        }
    }
}

/// The code of an expression holds neither a label nor a jump.
pub proof fn lemma_expression_straight(expr: &Expression, symbols: Option<SymbolTable>)
    requires
        lower_model(*expr, symbols) is Ok,
    ensures
        straight(lower_model(*expr, symbols)->Ok_0),
    decreases *expr,
{
    match expr {
        Expression::BoolToInt(inner) => {
            lemma_expression_straight(&**inner, symbols);
        },
        Expression::RealToInt(inner) => {
            lemma_expression_straight(&**inner, symbols);
        },
        Expression::IntToBool(inner) => {
            lemma_expression_straight(&**inner, symbols);
        },
        Expression::IntToReal(inner) => {
            lemma_expression_straight(&**inner, symbols);
        },
        Expression::LvalueToRvalue(lvalue) => {
            lemma_lvalue_straight(&**lvalue, symbols);
        },
        Expression::Binop { op, lhs, rhs } => {
            lemma_expression_straight(&**lhs, symbols);
            lemma_expression_straight(&**rhs, symbols);
        },
        Expression::Call { callee, args } => {
            lemma_arguments_straight(args@, args@.len() as int, symbols);
        },
        _ => {},
    }
}

proof fn lemma_arguments_straight(args: Seq<Rc<Expression>>, n: int, symbols: Option<SymbolTable>)
    requires
        0 <= n <= args.len(),
        lower_arguments_model(args, n, symbols) is Ok,
    ensures
        straight(lower_arguments_model(args, n, symbols)->Ok_0),
    decreases args, n,
{
    if n > 0 {
        lemma_arguments_straight(args, n - 1, symbols);
        lemma_expression_straight(&*args[n - 1], symbols);
    }
}

proof fn lemma_lvalue_straight(lvalue: &LvalueExpression, symbols: Option<SymbolTable>)
    requires
        lower_lvalue_model(*lvalue, symbols) is Ok,
    ensures
        straight(lower_lvalue_model(*lvalue, symbols)->Ok_0),
    decreases *lvalue,
{
    match lvalue {
        LvalueExpression::Identifier(_) => {},
        LvalueExpression::Member { lhs, .. } => {
            lemma_lvalue_straight(&**lhs, symbols);
        },
        LvalueExpression::Index { lhs, index } => {
            lemma_lvalue_straight(&**lhs, symbols);
            lemma_expression_straight(&**index, symbols);
        },
    }
}

/// The jumps of a piece of code lead to its own labels, and its labels
/// are those from `next` up to `after`, the next free one.
pub open spec fn well_labelled(code: Seq<Bytecode>, next: u64, after: u64) -> bool {
    next <= after && closed(code) && labels_within(code, next as int, after as int)
}

proof fn lemma_branch_labels(
    test: Seq<Bytecode>,
    first: Seq<Bytecode>,
    second: Seq<Bytecode>,
    next: u64,
    middle: u64,
    after: u64,
)
    requires
        next <= u64::MAX - 2,
        straight(test),
        well_labelled(first, (next + 2) as u64, middle),
        well_labelled(second, middle, after),
    ensures
        well_labelled(branch_code(test, first, second, next), next, after),
{
    let end = (next + 1) as u64;
    let whole = branch_code(test, first, second, next);
    let enter = seq![Bytecode::JumpZero { label: next }];
    let turn = seq![Bytecode::Jump { label: end }, Bytecode::Label { id: next }];
    let leave = seq![Bytecode::Label { id: end }];
    assert(whole[test.len() as int + 1 + first.len() as int + 1] == (Bytecode::Label { id: next }));
    assert(whole[whole.len() - 1] == (Bytecode::Label { id: end }));
    assert(whole =~= (test + enter) + first + (turn + second + leave));
    lemma_lead_inside(first, test + enter, first, turn + second + leave);
    lemma_lead_inside(second, test + enter + first + turn, second, leave);
}

proof fn lemma_while_labels(test: Seq<Bytecode>, inside: Seq<Bytecode>, next: u64, after: u64)
    requires
        next <= u64::MAX - 2,
        straight(test),
        well_labelled(inside, (next + 2) as u64, after),
    ensures
        well_labelled(while_code(test, inside, next), next, after),
{
    let end = (next + 1) as u64;
    let whole = while_code(test, inside, next);
    let start = seq![Bytecode::Label { id: next }];
    let enter = seq![Bytecode::JumpZero { label: end }];
    let leave = seq![Bytecode::Jump { label: next }, Bytecode::Label { id: end }];
    assert(whole[0] == (Bytecode::Label { id: next }));
    assert(whole[whole.len() - 1] == (Bytecode::Label { id: end }));
    lemma_lead_inside(inside, start + test + enter, inside, leave);
}

proof fn lemma_for_labels(
    first: Seq<Bytecode>,
    last: Seq<Bytecode>,
    inside: Seq<Bytecode>,
    load: Bytecode,
    store: Bytecode,
    order: LoopOrder,
    next: u64,
    after: u64,
)
    requires
        next <= u64::MAX - 2,
        straight(first),
        straight(last),
        load is Load,
        store is Store,
        well_labelled(inside, (next + 2) as u64, after),
    ensures
        well_labelled(for_code(first, last, inside, load, store, order, next), next, after),
{
    let end = (next + 1) as u64;
    let whole = for_code(first, last, inside, load, store, order, next);
    let start = seq![store, Bytecode::Label { id: next }, load];
    let enter = seq![
        Bytecode::BinOp {
            op: if order is Direct {
                crate::operators::SemanticBinaryOperator::IntLe
            } else {
                crate::operators::SemanticBinaryOperator::IntGe
            },
        },
        Bytecode::JumpZero { label: end },
    ];
    let leave = seq![
        load,
        Bytecode::IntConst { value: 1 },
        Bytecode::BinOp {
            op: if order is Direct {
                crate::operators::SemanticBinaryOperator::IntAdd
            } else {
                crate::operators::SemanticBinaryOperator::IntSub
            },
        },
        store,
        Bytecode::Jump { label: next },
        Bytecode::Label { id: end },
    ];
    assert(whole[first.len() as int + 1] == (Bytecode::Label { id: next }));
    assert(whole[whole.len() - 1] == (Bytecode::Label { id: end }));
    lemma_lead_inside(inside, first + start + last + enter, inside, leave);
}

/// The jumps of a statement's code lead to labels of that code, and the
/// labels are the fresh ones that the statement took.
pub proof fn lemma_statement_labels(
    statement: &Statement,
    symbols: Option<SymbolTable>,
    registry: RegistryView,
    next: u64,
)
    ensures
        match statement_model(*statement, symbols, registry, next) {
            Ok((code, after)) => well_labelled(code, next, after),
            Err(_) => true,
        },
    decreases *statement,
{
    if statement_model(*statement, symbols, registry, next) is Ok {
        match statement {
            Statement::Assignment { lhs, rhs } => {
                lemma_expression_straight(&**rhs, symbols);
            },
            Statement::Print { value } => {
                lemma_expression_straight(&**value, symbols);
            },
            Statement::Return { value } => {
                lemma_expression_straight(&**value, symbols);
            },
            Statement::If { condition, on_true, on_false } => {
                lemma_expression_straight(&**condition, symbols);
                lemma_block_labels(
                    on_true.elements@,
                    on_true.elements@.len() as int,
                    symbols,
                    registry,
                    (next + 2) as u64,
                );
                if let Ok((first, middle)) = block_model(
                    on_true.elements@,
                    on_true.elements@.len() as int,
                    symbols,
                    registry,
                    (next + 2) as u64,
                ) {
                    match on_false {
                        None => {
                            assert(well_labelled(Seq::<Bytecode>::empty(), middle, middle));
                        },
                        Some(other) => {
                            lemma_block_labels(
                                other.elements@,
                                other.elements@.len() as int,
                                symbols,
                                registry,
                                middle,
                            );
                        },
                    }
                }
                lemma_branch_all(next);
            },
            Statement::While { condition, body } => {
                lemma_expression_straight(&**condition, symbols);
                lemma_block_labels(
                    body.elements@,
                    body.elements@.len() as int,
                    symbols,
                    registry,
                    (next + 2) as u64,
                );
                lemma_while_all(next);
            },
            Statement::For { identifier, from, to, order, body } => {
                lemma_expression_straight(&**from, symbols);
                if let Some(to) = to {
                    lemma_expression_straight(&**to, symbols);
                }
                lemma_block_labels(
                    body.elements@,
                    body.elements@.len() as int,
                    symbols,
                    registry,
                    (next + 2) as u64,
                );
                lemma_for_all(next);
            },
        }
    }
}

proof fn lemma_branch_all(next: u64)
    requires
        next <= u64::MAX - 2,
    ensures
        forall|
            test: Seq<Bytecode>,
            first: Seq<Bytecode>,
            second: Seq<Bytecode>,
            middle: u64,
            after: u64,
        |
            straight(test) && well_labelled(first, (next + 2) as u64, middle)
                && #[trigger] well_labelled(second, middle, after) ==> well_labelled(
                #[trigger] branch_code(test, first, second, next),
                next,
                after,
            ),
{
    assert forall|
        test: Seq<Bytecode>,
        first: Seq<Bytecode>,
        second: Seq<Bytecode>,
        middle: u64,
        after: u64,
    |
        straight(test) && well_labelled(first, (next + 2) as u64, middle)
            && #[trigger] well_labelled(second, middle, after) implies well_labelled(
        #[trigger] branch_code(test, first, second, next),
        next,
        after,
    ) by {
        lemma_branch_labels(test, first, second, next, middle, after);
    }
}

proof fn lemma_while_all(next: u64)
    requires
        next <= u64::MAX - 2,
    ensures
        forall|test: Seq<Bytecode>, inside: Seq<Bytecode>, after: u64|
            straight(test) && #[trigger] well_labelled(inside, (next + 2) as u64, after)
                ==> well_labelled(#[trigger] while_code(test, inside, next), next, after),
{
    assert forall|test: Seq<Bytecode>, inside: Seq<Bytecode>, after: u64|
        straight(test) && #[trigger] well_labelled(
            inside,
            (next + 2) as u64,
            after,
        ) implies well_labelled(#[trigger] while_code(test, inside, next), next, after) by {
        lemma_while_labels(test, inside, next, after);
    }
}

proof fn lemma_for_all(next: u64)
    requires
        next <= u64::MAX - 2,
    ensures
        forall|
            first: Seq<Bytecode>,
            last: Seq<Bytecode>,
            inside: Seq<Bytecode>,
            load: Bytecode,
            store: Bytecode,
            order: LoopOrder,
            after: u64,
        |
            straight(first) && straight(last) && load is Load && store is Store
                && #[trigger] well_labelled(inside, (next + 2) as u64, after) ==> well_labelled(
                #[trigger] for_code(first, last, inside, load, store, order, next),
                next,
                after,
            ),
{
    assert forall|
        first: Seq<Bytecode>,
        last: Seq<Bytecode>,
        inside: Seq<Bytecode>,
        load: Bytecode,
        store: Bytecode,
        order: LoopOrder,
        after: u64,
    |
        straight(first) && straight(last) && load is Load && store is Store
            && #[trigger] well_labelled(inside, (next + 2) as u64, after) implies well_labelled(
        #[trigger] for_code(first, last, inside, load, store, order, next),
        next,
        after,
    ) by {
        lemma_for_labels(first, last, inside, load, store, order, next, after);
    }
}

proof fn lemma_join(before: Seq<Bytecode>, last: Seq<Bytecode>, next: u64, middle: u64, after: u64)
    requires
        well_labelled(before, next, middle),
        well_labelled(last, middle, after),
    ensures
        well_labelled(before + last, next, after),
{
    lemma_lead_inside(before, Seq::empty(), before, last);
    lemma_lead_inside(last, before, last, Seq::empty());
}

proof fn lemma_join_all(next: u64, middle: u64)
    ensures
        forall|before: Seq<Bytecode>, last: Seq<Bytecode>, after: u64|
            well_labelled(before, next, middle) && #[trigger] well_labelled(last, middle, after)
                ==> well_labelled(#[trigger] (before + last), next, after),
{
    assert forall|before: Seq<Bytecode>, last: Seq<Bytecode>, after: u64|
        well_labelled(before, next, middle) && #[trigger] well_labelled(
            last,
            middle,
            after,
        ) implies well_labelled(#[trigger] (before + last), next, after) by {
        lemma_join(before, last, next, middle, after);
    }
}

/// The jumps of a block's code lead to labels of that code, and the
/// labels are the fresh ones that the block took.
pub proof fn lemma_block_labels(
    elements: Seq<BlockElement>,
    n: int,
    symbols: Option<SymbolTable>,
    registry: RegistryView,
    next: u64,
)
    ensures
        match block_model(elements, n, symbols, registry, next) {
            Ok((code, after)) => well_labelled(code, next, after),
            Err(_) => true,
        },
    decreases elements, n,
{
    if 0 < n <= elements.len() {
        lemma_block_labels(elements, n - 1, symbols, registry, next);
        if let Ok((before, middle)) = block_model(elements, n - 1, symbols, registry, next) {
            match &elements[n - 1] {
                BlockElement::Decl(declaration) => {
                    if let Ok(last) = declaration_model(symbols, declaration.name.name@) {
                        lemma_join(before, last, next, middle, middle);
                    }
                },
                BlockElement::Stmt(statement) => {
                    lemma_statement_labels(&**statement, symbols, registry, middle);
                    lemma_join_all(next, middle);
                },
            }
        }
    }
}

proof fn lemma_first_label_prefix(before: Seq<Bytecode>, whole: Seq<Bytecode>, label: u64, n: int)
    requires
        0 <= n <= before.len() <= whole.len(),
        forall|i: int| 0 <= i < before.len() ==> whole[i] == before[i],
        first_label(before, label, n) is None,
    ensures
        first_label(whole, label, n) is None,
    decreases n,
{
    if n > 0 {
        lemma_first_label_prefix(before, whole, label, n - 1);
    }
}

proof fn lemma_first_label_found(code: Seq<Bytecode>, label: u64, i: int, n: int)
    requires
        0 <= i < n <= code.len(),
        first_label(code, label, i) is None,
        code[i] == (Bytecode::Label { id: label }),
    ensures
        first_label(code, label, n) == Some(i),
    decreases n,
{
    if n > i + 1 {
        lemma_first_label_found(code, label, i, n - 1);
    }
}

proof fn lemma_numbers_count(registry: RegistryView, types: Seq<Rc<crate::ast::Type>>, n: int)
    requires
        0 <= n <= types.len(),
    ensures
        match numbers_model(registry, types, n) {
            Ok(ids) => ids.len() == n,
            Err(_) => true,
        },
    decreases n,
{
    if n > 0 {
        lemma_numbers_count(registry, types, n - 1);
    }
}

/// A routine whose label is not yet taken is lowered to what the function
/// table asks of it: the entry's label is defined, by the first
/// instruction of the routine, and the next one is the `Enter` of a
/// function with as many arguments as the entry names.
pub proof fn lemma_routine_entry(
    before: Seq<Bytecode>,
    routine: Routine,
    symbols: Option<SymbolTable>,
    registry: RegistryView,
    next: u64,
)
    requires
        label_position(before, routine.label) is None,
    ensures
        match routine_model(routine, symbols, registry, next) {
            Ok((record, code, _)) => function_entry_ok(record, before + code),
            Err(_) => true,
        },
{
    if let Ok((record, code, _)) = routine_model(routine, symbols, registry, next) {
        let whole = before + code;
        let at = before.len() as int;
        lemma_numbers_count(registry, routine.parameters@, routine.parameters@.len() as int);
        lemma_first_label_prefix(before, whole, routine.label, at);
        lemma_first_label_found(whole, routine.label, at, whole.len() as int);
        assert(routine.parameters.len() == routine.parameters@.len());
    }
}

/// Lowering is a function of what is lowered: routines that are equal
/// as values, lowered with the same symbols, type numbers and labels, get
/// the same entry, the same instructions and the same labels.
pub proof fn lemma_lowering_deterministic(
    first: Routine,
    second: Routine,
    symbols: Option<SymbolTable>,
    registry: RegistryView,
    next: u64,
)
    requires
        first == second,
    ensures
        routine_model(first, symbols, registry, next) == routine_model(
            second,
            symbols,
            registry,
            next,
        ),
{
}

} // verus!
