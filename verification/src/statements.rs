//! Lowering of statements: assignments, branches, loops, output and
//! return, as instructions with fresh labels.
//!
//! Statements are taken as typed: a condition is whatever leaves zero on
//! the stack for "no", and a counting loop counts an integer variable.

use vstd::prelude::*;
use std::rc::Rc;
use crate::ast::{
    type_label, Block, BlockElement, LoopOrder, SimpleDeclaration, Statement, Type,
    TypeInferenceError, TypeView,
};
use crate::bytecode::{Bytecode, FunctionRecord, FunctionTable, FunctionView, TypeId};
use crate::lowering::{
    allocation, allocation_model, layout_reason, lower, lower_model, variable_load,
};
use crate::operators::SemanticBinaryOperator;
use crate::registry::{type_number, RegistryView, TypeRegistry};
use crate::typing::{
    find_variable, infer_model, no_symbols_reason, owned, reason_of, unresolved_reason,
    variable_index, SymbolTable,
};

verus! {

/// What is said where no two labels are left.
pub open spec fn labels_reason() -> Seq<char> {
    "out of labels"@
}

/// What is said of a counting loop without its last bound.
pub open spec fn unbounded_reason() -> Seq<char> {
    "loop without an upper bound"@
}

/// What is said of a type that the registry does not know.
pub open spec fn number_reason(t: TypeView) -> Seq<char> {
    "no type number for "@ + type_label(t)
}

/// The store into a variable.
pub open spec fn variable_store(symbols: Option<SymbolTable>, name: Seq<char>) -> Result<
    Bytecode,
    Seq<char>,
> {
    match symbols {
        None => Err(no_symbols_reason()),
        Some(table) => match variable_index(
            table.variables@,
            name,
            table.variables@.len() as int,
        ) {
            None => Err(unresolved_reason(name)),
            Some(i) => Ok(Bytecode::Store { loc: table.variables@[i].location }),
        },
    }
}

/// The instruction that prints a value of a type.
pub open spec fn print_of(registry: RegistryView, typed: Result<TypeView, Seq<char>>) -> Result<
    Bytecode,
    Seq<char>,
> {
    match typed {
        Err(reason) => Err(reason),
        Ok(t) => match type_number(registry, t) {
            Some(type_id) => Ok(Bytecode::Print { type_id }),
            None => Err(number_reason(t)),
        },
    }
}

/// The instructions of a branch, from the instructions of its parts.
pub open spec fn branch_code(
    condition: Seq<Bytecode>,
    on_true: Seq<Bytecode>,
    on_false: Seq<Bytecode>,
    next: u64,
) -> Seq<Bytecode> {
    condition + seq![Bytecode::JumpZero { label: next }] + on_true + seq![
        Bytecode::Jump { label: (next + 1) as u64 },
        Bytecode::Label { id: next },
    ] + on_false + seq![Bytecode::Label { id: (next + 1) as u64 }]
}

/// The instructions of a loop that goes on while its condition holds.
pub open spec fn while_code(condition: Seq<Bytecode>, body: Seq<Bytecode>, next: u64) -> Seq<
    Bytecode,
> {
    seq![Bytecode::Label { id: next }] + condition + seq![
        Bytecode::JumpZero { label: (next + 1) as u64 },
    ] + body + seq![Bytecode::Jump { label: next }, Bytecode::Label { id: (next + 1) as u64 }]
}

/// The instructions of a counting loop. The variable is set to the
/// first bound; as long as it has not passed the last bound the body runs
/// and the variable moves on by one.
pub open spec fn for_code(
    first: Seq<Bytecode>,
    last: Seq<Bytecode>,
    body: Seq<Bytecode>,
    load: Bytecode,
    store: Bytecode,
    order: LoopOrder,
    next: u64,
) -> Seq<Bytecode> {
    first + seq![store, Bytecode::Label { id: next }, load] + last + seq![
        Bytecode::BinOp {
            op: if order is Direct {
                SemanticBinaryOperator::IntLe
            } else {
                SemanticBinaryOperator::IntGe
            },
        },
        Bytecode::JumpZero { label: (next + 1) as u64 },
    ] + body + seq![
        load,
        Bytecode::IntConst { value: 1 },
        Bytecode::BinOp {
            op: if order is Direct {
                SemanticBinaryOperator::IntAdd
            } else {
                SemanticBinaryOperator::IntSub
            },
        },
        store,
        Bytecode::Jump { label: next },
        Bytecode::Label { id: (next + 1) as u64 },
    ]
}

/// The instructions of a statement and the next free label behind them.
/// A statement that branches takes the two labels `next` and `next + 1`
/// for itself before its parts take theirs.
pub open spec fn statement_model(
    statement: Statement,
    symbols: Option<SymbolTable>,
    registry: RegistryView,
    next: u64,
) -> Result<(Seq<Bytecode>, u64), Seq<char>>
    decreases statement,
{
    match statement {
        Statement::Assignment { lhs, rhs } => match lower_model(*rhs, symbols) {
            Err(reason) => Err(reason),
            Ok(code) => match variable_store(symbols, lhs.name@) {
                Err(reason) => Err(reason),
                Ok(store) => Ok((code.push(store), next)),
            },
        },
        Statement::Print { value } => match lower_model(*value, symbols) {
            Err(reason) => Err(reason),
            Ok(code) => match print_of(registry, infer_model(*value, symbols)) {
                Err(reason) => Err(reason),
                Ok(print) => Ok((code.push(print), next)),
            },
        },
        Statement::Return { value } => match lower_model(*value, symbols) {
            Err(reason) => Err(reason),
            Ok(code) => Ok((code.push(Bytecode::Ret), next)),
        },
        Statement::If { condition, on_true, on_false } => if next > u64::MAX - 2 {
            Err(labels_reason())
        } else {
            match lower_model(*condition, symbols) {
                Err(reason) => Err(reason),
                Ok(test) => match block_model(
                    on_true.elements@,
                    on_true.elements@.len() as int,
                    symbols,
                    registry,
                    (next + 2) as u64,
                ) {
                    Err(reason) => Err(reason),
                    Ok((first, middle)) => match on_false {
                        None => Ok((branch_code(test, first, Seq::empty(), next), middle)),
                        Some(other) => match block_model(
                            other.elements@,
                            other.elements@.len() as int,
                            symbols,
                            registry,
                            middle,
                        ) {
                            Err(reason) => Err(reason),
                            Ok((second, after)) => Ok(
                                (branch_code(test, first, second, next), after),
                            ),
                        },
                    },
                },
            }
        },
        Statement::While { condition, body } => if next > u64::MAX - 2 {
            Err(labels_reason())
        } else {
            match lower_model(*condition, symbols) {
                Err(reason) => Err(reason),
                Ok(test) => match block_model(
                    body.elements@,
                    body.elements@.len() as int,
                    symbols,
                    registry,
                    (next + 2) as u64,
                ) {
                    Err(reason) => Err(reason),
                    Ok((inside, after)) => Ok((while_code(test, inside, next), after)),
                },
            }
        },
        Statement::For { identifier, from, to, order, body } => match to {
            None => Err(unbounded_reason()),
            Some(to) => if next > u64::MAX - 2 {
                Err(labels_reason())
            } else {
                match (
                    variable_load(symbols, identifier.name@),
                    variable_store(symbols, identifier.name@),
                ) {
                    (Ok(load), Ok(store)) => match (
                        lower_model(*from, symbols),
                        lower_model(*to, symbols),
                    ) {
                        (Ok(low), Ok(high)) => match block_model(
                            body.elements@,
                            body.elements@.len() as int,
                            symbols,
                            registry,
                            (next + 2) as u64,
                        ) {
                            Err(reason) => Err(reason),
                            Ok((inside, after)) => Ok(
                                (
                                    if order is Direct {
                                        for_code(low, high, inside, load, store, order, next)
                                    } else {
                                        for_code(high, low, inside, load, store, order, next)
                                    },
                                    after,
                                ),
                            ),
                        },
                        (Err(reason), _) => Err(reason),
                        (_, Err(reason)) => Err(reason),
                    },
                    (Err(reason), _) => Err(reason),
                    (_, Err(reason)) => Err(reason),
                }
            },
        },
    }
}

/// The instruction that allocates a value of a type, or the reason why a
/// record is too large for one. A type whose values are not allocated
/// needs none.
pub open spec fn allocation_of(t: TypeView) -> Result<Option<Bytecode>, Seq<char>> {
    match t {
        TypeView::Record(_) => match allocation_model(t) {
            Some(instruction) => Ok(Some(instruction)),
            None => Err(layout_reason()),
        },
        _ => Ok(allocation_model(t)),
    }
}

/// The instructions of the declaration of a variable: where its type asks
/// for it, a value is allocated and the reference to it is stored in the
/// variable.
pub open spec fn declaration_model(symbols: Option<SymbolTable>, name: Seq<char>) -> Result<
    Seq<Bytecode>,
    Seq<char>,
> {
    match symbols {
        None => Err(no_symbols_reason()),
        Some(table) => match variable_index(
            table.variables@,
            name,
            table.variables@.len() as int,
        ) {
            None => Err(unresolved_reason(name)),
            Some(i) => match allocation_of(table.variables@[i].t@) {
                Err(reason) => Err(reason),
                Ok(None) => Ok(Seq::empty()),
                Ok(Some(instruction)) => Ok(
                    seq![instruction, Bytecode::Store { loc: table.variables@[i].location }],
                ),
            },
        },
    }
}

/// The instructions of the first `n` elements of a block and the next
/// free label behind them.
pub open spec fn block_model(
    elements: Seq<BlockElement>,
    n: int,
    symbols: Option<SymbolTable>,
    registry: RegistryView,
    next: u64,
) -> Result<(Seq<Bytecode>, u64), Seq<char>>
    decreases elements, n,
{
    if n <= 0 || n > elements.len() {
        Ok((Seq::empty(), next))
    } else {
        match block_model(elements, n - 1, symbols, registry, next) {
            Err(reason) => Err(reason),
            Ok((before, middle)) => match elements[n - 1] {
                BlockElement::Decl(declaration) => match declaration_model(
                    symbols,
                    declaration.name.name@,
                ) {
                    Err(reason) => Err(reason),
                    Ok(last) => Ok((before + last, middle)),
                },
                BlockElement::Stmt(statement) => match statement_model(
                    *statement,
                    symbols,
                    registry,
                    middle,
                ) {
                    Err(reason) => Err(reason),
                    Ok((last, after)) => Ok((before + last, after)),
                },
            },
        }
    }
}

/// What was lowered is what the model says: on success the instructions
/// were added behind what was there and the next free label is the
/// model's, on failure the reason is the model's reason.
pub open spec fn emitted(
    found: Result<(), TypeInferenceError>,
    before: Seq<Bytecode>,
    after: Seq<Bytecode>,
    next: u64,
    model: Result<(Seq<Bytecode>, u64), Seq<char>>,
) -> bool {
    match found {
        Ok(_) => match model {
            Ok((code, label)) => after == before + code && next == label,
            Err(_) => false,
        },
        Err(error) => model == Err::<(Seq<Bytecode>, u64), Seq<char>>(error.reason@),
    }
}

fn out_of_labels() -> (error: TypeInferenceError)
    ensures
        error.reason@ == labels_reason(),
{
    proof {
        reveal_strlit("");
    }
    let error = reason_of("out of labels", "", "", "");
    error
}

/// Adds the instructions of a statement and moves the next free label
/// on. After a failure the code and the label are of no use.
pub fn lower_statement(
    statement: &Statement,
    symbols: Option<&SymbolTable>,
    registry: &TypeRegistry,
    next: &mut u64,
    code: &mut Vec<Bytecode>,
) -> (found: Result<(), TypeInferenceError>)
    ensures
        emitted(
            found,
            old(code)@,
            final(code)@,
            *final(next),
            statement_model(*statement, owned(symbols), registry@, *old(next)),
        ),
    decreases *statement, 1int,
{
    match statement {
        Statement::Assignment { .. } | Statement::Print { .. } | Statement::Return { .. } => {
            lower_simple(statement, symbols, registry, code)
        },
        Statement::If { .. } => lower_if(statement, symbols, registry, next, code),
        Statement::While { .. } => lower_while(statement, symbols, registry, next, code),
        Statement::For { .. } => lower_for(statement, symbols, registry, next, code),
    }
}

fn lower_simple(
    statement: &Statement,
    symbols: Option<&SymbolTable>,
    registry: &TypeRegistry,
    code: &mut Vec<Bytecode>,
) -> (found: Result<(), TypeInferenceError>)
    requires
        statement is Assignment || statement is Print || statement is Return,
    ensures
        forall|next: u64|
            emitted(
                found,
                old(code)@,
                final(code)@,
                next,
                #[trigger] statement_model(*statement, owned(symbols), registry@, next),
            ),
{
    let ghost table = owned(symbols);
    let ghost before = code@;
    match statement {
        Statement::Assignment { lhs, rhs } => {
            if let Err(error) = lower(rhs, symbols, code) {
                return Err(error);
            }
            match find_variable(symbols, &lhs.name) {
                Err(error) => Err(error),
                Ok(variable) => {
                    let store = Bytecode::Store { loc: variable.location };
                    code.push(store);
                    assert(code@ =~= before + lower_model(**rhs, table)->Ok_0.push(store));
                    Ok(())
                },
            }
        },
        Statement::Print { value } => {
            let t = match lower(value, symbols, code) {
                Err(error) => {
                    return Err(error);
                },
                Ok(t) => t,
            };
            match registry.number_of(&t) {
                None => {
                    let label = crate::ast::describe_type(&t);
                    proof {
                        reveal_strlit("");
                    }
                    let error = reason_of("no type number for ", label.as_str(), "", "");
                    Err(error)
                },
                Some(type_id) => {
                    let print = Bytecode::Print { type_id };
                    code.push(print);
                    assert(code@ =~= before + lower_model(**value, table)->Ok_0.push(print));
                    Ok(())
                },
            }
        },
        Statement::Return { value } => {
            if let Err(error) = lower(value, symbols, code) {
                return Err(error);
            }
            code.push(Bytecode::Ret);
            Ok(())
        },
        _ => Ok(()),
    }
}

fn lower_if(
    statement: &Statement,
    symbols: Option<&SymbolTable>,
    registry: &TypeRegistry,
    next: &mut u64,
    code: &mut Vec<Bytecode>,
) -> (found: Result<(), TypeInferenceError>)
    requires
        statement is If,
    ensures
        emitted(
            found,
            old(code)@,
            final(code)@,
            *final(next),
            statement_model(*statement, owned(symbols), registry@, *old(next)),
        ),
    decreases *statement, 0int,
{
    let ghost table = owned(symbols);
    let ghost before = code@;
    let ghost first_label = *next;
    match statement {
        Statement::If { condition, on_true, on_false } => {
            if *next > u64::MAX - 2 {
                return Err(out_of_labels());
            }
            let otherwise = *next;
            let end = *next + 1;
            *next = *next + 2;
            if let Err(error) = lower(condition, symbols, code) {
                return Err(error);
            }
            let ghost test = code@.subrange(before.len() as int, code@.len() as int);
            assert(test =~= lower_model(**condition, table)->Ok_0);
            code.push(Bytecode::JumpZero { label: otherwise });
            let ghost at_first = code@;
            if let Err(error) = lower_block(on_true, symbols, registry, next, code) {
                return Err(error);
            }
            let ghost first = code@.subrange(at_first.len() as int, code@.len() as int);
            assert(first =~= block_model(
                on_true.elements@,
                on_true.elements@.len() as int,
                table,
                registry@,
                (first_label + 2) as u64,
            )->Ok_0.0);
            code.push(Bytecode::Jump { label: end });
            code.push(Bytecode::Label { id: otherwise });
            let ghost at_second = code@;
            let ghost middle = *next;
            match on_false {
                None => {
                    code.push(Bytecode::Label { id: end });
                    assert(code@ =~= before + branch_code(
                        test,
                        first,
                        Seq::empty(),
                        first_label,
                    ));
                    Ok(())
                },
                Some(other) => {
                    if let Err(error) = lower_block(other, symbols, registry, next, code) {
                        return Err(error);
                    }
                    let ghost second = code@.subrange(at_second.len() as int, code@.len() as int);
                    assert(second =~= block_model(
                        other.elements@,
                        other.elements@.len() as int,
                        table,
                        registry@,
                        middle,
                    )->Ok_0.0);
                    code.push(Bytecode::Label { id: end });
                    assert(code@ =~= before + branch_code(test, first, second, first_label));
                    Ok(())
                },
            }
        },
        _ => Ok(()),
    }
}

fn lower_while(
    statement: &Statement,
    symbols: Option<&SymbolTable>,
    registry: &TypeRegistry,
    next: &mut u64,
    code: &mut Vec<Bytecode>,
) -> (found: Result<(), TypeInferenceError>)
    requires
        statement is While,
    ensures
        emitted(
            found,
            old(code)@,
            final(code)@,
            *final(next),
            statement_model(*statement, owned(symbols), registry@, *old(next)),
        ),
    decreases *statement, 0int,
{
    let ghost table = owned(symbols);
    let ghost before = code@;
    let ghost first_label = *next;
    match statement {
        Statement::While { condition, body } => {
            if *next > u64::MAX - 2 {
                return Err(out_of_labels());
            }
            let start = *next;
            let end = *next + 1;
            *next = *next + 2;
            code.push(Bytecode::Label { id: start });
            if let Err(error) = lower(condition, symbols, code) {
                return Err(error);
            }
            let ghost test = code@.subrange(before.len() as int + 1, code@.len() as int);
            assert(test =~= lower_model(**condition, table)->Ok_0);
            code.push(Bytecode::JumpZero { label: end });
            let ghost at_body = code@;
            if let Err(error) = lower_block(body, symbols, registry, next, code) {
                return Err(error);
            }
            let ghost inside = code@.subrange(at_body.len() as int, code@.len() as int);
            assert(inside =~= block_model(
                body.elements@,
                body.elements@.len() as int,
                table,
                registry@,
                (first_label + 2) as u64,
            )->Ok_0.0);
            code.push(Bytecode::Jump { label: start });
            code.push(Bytecode::Label { id: end });
            assert(code@ =~= before + while_code(test, inside, first_label));
            Ok(())
        },
        _ => Ok(()),
    }
}

fn lower_for(
    statement: &Statement,
    symbols: Option<&SymbolTable>,
    registry: &TypeRegistry,
    next: &mut u64,
    code: &mut Vec<Bytecode>,
) -> (found: Result<(), TypeInferenceError>)
    requires
        statement is For,
    ensures
        emitted(
            found,
            old(code)@,
            final(code)@,
            *final(next),
            statement_model(*statement, owned(symbols), registry@, *old(next)),
        ),
    decreases *statement, 0int,
{
    let ghost table = owned(symbols);
    let ghost before = code@;
    let ghost first_label = *next;
    match statement {
        Statement::For { identifier, from, to, order, body } => {
            let to = match to {
                None => {
                    proof {
                        reveal_strlit("");
                    }
                    let error = reason_of("loop without an upper bound", "", "", "");
                    return Err(error);
                },
                Some(to) => to,
            };
            if *next > u64::MAX - 2 {
                return Err(out_of_labels());
            }
            let start = *next;
            let end = *next + 1;
            *next = *next + 2;
            let location = match find_variable(symbols, &identifier.name) {
                Err(error) => {
                    return Err(error);
                },
                Ok(variable) => variable.location,
            };
            let load = Bytecode::Load { loc: location };
            let store = Bytecode::Store { loc: location };
            let mut low: Vec<Bytecode> = Vec::new();
            if let Err(error) = lower(from, symbols, &mut low) {
                return Err(error);
            }
            let mut high: Vec<Bytecode> = Vec::new();
            if let Err(error) = lower(to, symbols, &mut high) {
                return Err(error);
            }
            assert(low@ =~= lower_model(**from, table)->Ok_0);
            let direct = match order {
                LoopOrder::Direct => true,
                LoopOrder::Reversed => false,
            };
            let ghost first = if direct {
                low@
            } else {
                high@
            };
            let ghost last = if direct {
                high@
            } else {
                low@
            };
            if direct {
                code.append(&mut low);
            } else {
                code.append(&mut high);
            }
            code.push(store);
            code.push(Bytecode::Label { id: start });
            code.push(load);
            if direct {
                code.append(&mut high);
            } else {
                code.append(&mut low);
            }
            code.push(
                Bytecode::BinOp {
                    op: if direct {
                        SemanticBinaryOperator::IntLe
                    } else {
                        SemanticBinaryOperator::IntGe
                    },
                },
            );
            code.push(Bytecode::JumpZero { label: end });
            let ghost at_body = code@;
            if let Err(error) = lower_block(body, symbols, registry, next, code) {
                return Err(error);
            }
            let ghost inside = code@.subrange(at_body.len() as int, code@.len() as int);
            assert(inside =~= block_model(
                body.elements@,
                body.elements@.len() as int,
                table,
                registry@,
                (first_label + 2) as u64,
            )->Ok_0.0);
            code.push(load);
            code.push(Bytecode::IntConst { value: 1 });
            code.push(
                Bytecode::BinOp {
                    op: if direct {
                        SemanticBinaryOperator::IntAdd
                    } else {
                        SemanticBinaryOperator::IntSub
                    },
                },
            );
            code.push(store);
            code.push(Bytecode::Jump { label: start });
            code.push(Bytecode::Label { id: end });
            assert(code@ =~= before + for_code(
                first,
                last,
                inside,
                load,
                store,
                *order,
                first_label,
            ));
            Ok(())
        },
        _ => Ok(()),
    }
}

/// Adds the instructions of the declaration of a variable.
pub fn lower_declaration(
    declaration: &SimpleDeclaration,
    symbols: Option<&SymbolTable>,
    code: &mut Vec<Bytecode>,
) -> (found: Result<(), TypeInferenceError>)
    ensures
        match found {
            Ok(_) => match declaration_model(owned(symbols), declaration.name.name@) {
                Ok(emitted) => final(code)@ == old(code)@ + emitted,
                Err(_) => false,
            },
            Err(error) => declaration_model(owned(symbols), declaration.name.name@) == Err::<
                Seq<Bytecode>,
                Seq<char>,
            >(error.reason@),
        },
{
    let variable = match find_variable(symbols, &declaration.name.name) {
        Err(error) => {
            return Err(error);
        },
        Ok(variable) => variable,
    };
    match allocation(&variable.t) {
        Some(instruction) => {
            code.push(instruction);
            code.push(Bytecode::Store { loc: variable.location });
            Ok(())
        },
        None => match &*variable.t {
            Type::Record(_) => {
                proof {
                    reveal_strlit("");
                }
                let error = reason_of("field offset out of range", "", "", "");
                Err(error)
            },
            _ => {
                Ok(())
            },
        },
    }
}

/// Once an element of a block cannot be lowered, the block cannot.
proof fn lemma_block_error_sticks(
    elements: Seq<BlockElement>,
    k: int,
    n: int,
    symbols: Option<SymbolTable>,
    registry: RegistryView,
    next: u64,
)
    requires
        0 <= k <= n <= elements.len(),
        block_model(elements, k, symbols, registry, next) is Err,
    ensures
        block_model(elements, n, symbols, registry, next) == block_model(
            elements,
            k,
            symbols,
            registry,
            next,
        ),
    decreases n,
{
    if n > k {
        lemma_block_error_sticks(elements, k, n - 1, symbols, registry, next);
    }
}

/// Adds the instructions of the statements of a block, in their order.
#[verifier::loop_isolation(false)]
pub fn lower_block(
    block: &Block,
    symbols: Option<&SymbolTable>,
    registry: &TypeRegistry,
    next: &mut u64,
    code: &mut Vec<Bytecode>,
) -> (found: Result<(), TypeInferenceError>)
    ensures
        emitted(
            found,
            old(code)@,
            final(code)@,
            *final(next),
            block_model(
                block.elements@,
                block.elements@.len() as int,
                owned(symbols),
                registry@,
                *old(next),
            ),
        ),
    decreases *block, 2int,
{
    let ghost table = owned(symbols);
    let ghost before = code@;
    let ghost first_label = *next;
    let mut i: usize = 0;
    while i < block.elements.len()
        invariant
            i <= block.elements.len(),
            table == owned(symbols),
            match block_model(block.elements@, i as int, table, registry@, first_label) {
                Ok((emitted, label)) => code@ == before + emitted && *next == label,
                Err(_) => false,
            },
        decreases block.elements.len() - i,
    {
        match &block.elements[i] {
            BlockElement::Decl(declaration) => {
                if let Err(error) = lower_declaration(declaration, symbols, code) {
                    proof {
                        lemma_block_error_sticks(
                            block.elements@,
                            i + 1,
                            block.elements@.len() as int,
                            table,
                            registry@,
                            first_label,
                        );
                    }
                    return Err(error);
                }
            },
            BlockElement::Stmt(statement) => {
                if let Err(error) = lower_statement(statement, symbols, registry, next, code) {
                    proof {
                        lemma_block_error_sticks(
                            block.elements@,
                            i + 1,
                            block.elements@.len() as int,
                            table,
                            registry@,
                            first_label,
                        );
                    }
                    return Err(error);
                }
            },
        }
        i += 1;
    }
    Ok(())
}

/// A routine that is ready to be lowered.
#[derive(PartialEq, Eq, Debug, Clone)]
pub struct Routine {
    pub name: String,
    /// The label at which callers find the routine.
    pub label: u64,
    pub parameters: Vec<Rc<Type>>,
    pub result: Rc<Type>,
    /// How many slots the routine's own variables take.
    pub local_count: u64,
    pub body: Block,
}

/// What is said of a routine whose label the function table cannot hold.
pub open spec fn label_range_reason() -> Seq<char> {
    "label out of range"@
}

/// The numbers of the first `n` types, or the reason why a type has
/// none.
pub open spec fn numbers_model(registry: RegistryView, types: Seq<Rc<Type>>, n: int) -> Result<
    Seq<TypeId>,
    Seq<char>,
>
    decreases n,
{
    if n <= 0 || n > types.len() {
        Ok(Seq::empty())
    } else {
        match numbers_model(registry, types, n - 1) {
            Err(reason) => Err(reason),
            Ok(ids) => match type_number(registry, types[n - 1]@) {
                Some(id) => Ok(ids.push(id)),
                None => Err(number_reason(types[n - 1]@)),
            },
        }
    }
}

/// The entry of the function table for a routine.
pub open spec fn record_model(routine: Routine, registry: RegistryView) -> Result<
    FunctionView,
    Seq<char>,
> {
    if routine.label > i64::MAX {
        Err(label_range_reason())
    } else {
        match numbers_model(registry, routine.parameters@, routine.parameters@.len() as int) {
            Err(reason) => Err(reason),
            Ok(args) => match type_number(registry, routine.result@) {
                None => Err(number_reason(routine.result@)),
                Some(result) => Ok(
                    FunctionView {
                        name: routine.name@,
                        label_id: routine.label as i64,
                        args,
                        result,
                    },
                ),
            },
        }
    }
}

/// The two instructions that every routine starts with: its label and
/// the `Enter` that sets up its frame.
pub open spec fn prologue(routine: Routine) -> Seq<Bytecode> {
    seq![
        Bytecode::Label { id: routine.label },
        Bytecode::Enter {
            arguments_count: routine.parameters@.len() as u64,
            local_count: routine.local_count,
        },
    ]
}

/// The entry of a routine, its instructions and the next free label
/// behind them.
pub open spec fn routine_model(
    routine: Routine,
    symbols: Option<SymbolTable>,
    registry: RegistryView,
    next: u64,
) -> Result<(FunctionView, Seq<Bytecode>, u64), Seq<char>> {
    match record_model(routine, registry) {
        Err(reason) => Err(reason),
        Ok(record) => match block_model(
            routine.body.elements@,
            routine.body.elements@.len() as int,
            symbols,
            registry,
            next,
        ) {
            Err(reason) => Err(reason),
            Ok((body, after)) => Ok((record, prologue(routine) + body, after)),
        },
    }
}

fn no_number(t: &Type) -> (error: TypeInferenceError)
    ensures
        error.reason@ == number_reason(t@),
{
    let label = crate::ast::describe_type(t);
    proof {
        reveal_strlit("");
    }
    let error = reason_of("no type number for ", label.as_str(), "", "");
    error
}

proof fn lemma_numbers_error_sticks(registry: RegistryView, types: Seq<Rc<Type>>, k: int, n: int)
    requires
        0 <= k <= n <= types.len(),
        numbers_model(registry, types, k) is Err,
    ensures
        numbers_model(registry, types, n) == numbers_model(registry, types, k),
    decreases n,
{
    if n > k {
        lemma_numbers_error_sticks(registry, types, k, n - 1);
    }
}

#[verifier::loop_isolation(false)]
fn record_of(routine: &Routine, registry: &TypeRegistry) -> (found: Result<
    FunctionRecord,
    TypeInferenceError,
>)
    ensures
        match found {
            Ok(record) => record_model(*routine, registry@) == Ok::<FunctionView, Seq<char>>(
                record@,
            ),
            Err(error) => record_model(*routine, registry@) == Err::<FunctionView, Seq<char>>(
                error.reason@,
            ),
        },
{
    if routine.label > 0x7fff_ffff_ffff_ffff {
        proof {
            reveal_strlit("");
        }
        let error = reason_of("label out of range", "", "", "");
        return Err(error);
    }
    let mut args: Vec<TypeId> = Vec::new();
    let mut i: usize = 0;
    while i < routine.parameters.len()
        invariant
            i <= routine.parameters.len(),
            numbers_model(registry@, routine.parameters@, i as int) == Ok::<
                Seq<TypeId>,
                Seq<char>,
            >(args@),
        decreases routine.parameters.len() - i,
    {
        match registry.number_of(&routine.parameters[i]) {
            None => {
                proof {
                    lemma_numbers_error_sticks(
                        registry@,
                        routine.parameters@,
                        i + 1,
                        routine.parameters@.len() as int,
                    );
                }
                return Err(no_number(&routine.parameters[i]));
            },
            Some(id) => {
                args.push(id);
            },
        }
        i += 1;
    }
    match registry.number_of(&routine.result) {
        None => Err(no_number(&routine.result)),
        Some(result) => Ok(
            FunctionRecord {
                name: routine.name.clone(),
                label_id: routine.label as i64,
                args,
                result,
            },
        ),
    }
}

/// Adds a routine to a module in the making: its entry to the function
/// table and its instructions, which start with its label and its
/// `Enter`, to the code. After a failure the three are of no use.
pub fn lower_routine(
    routine: &Routine,
    symbols: Option<&SymbolTable>,
    registry: &TypeRegistry,
    next: &mut u64,
    code: &mut Vec<Bytecode>,
    functions: &mut FunctionTable,
) -> (found: Result<(), TypeInferenceError>)
    ensures
        match found {
            Ok(_) => match routine_model(*routine, owned(symbols), registry@, *old(next)) {
                Ok((record, emitted, label)) => final(code)@ == old(code)@ + emitted
                    && *final(next) == label && final(functions)@ == old(functions)@.push(record),
                Err(_) => false,
            },
            Err(error) => routine_model(*routine, owned(symbols), registry@, *old(next)) == Err::<
                (FunctionView, Seq<Bytecode>, u64),
                Seq<char>,
            >(error.reason@),
        },
{
    let record = match record_of(routine, registry) {
        Err(error) => {
            return Err(error);
        },
        Ok(record) => record,
    };
    code.push(Bytecode::Label { id: routine.label });
    code.push(
        Bytecode::Enter {
            arguments_count: routine.parameters.len() as u64,
            local_count: routine.local_count,
        },
    );
    if let Err(error) = lower_block(&routine.body, symbols, registry, next, code) {
        return Err(error);
    }
    functions.0.push(record);
    Ok(())
}

} // verus!
