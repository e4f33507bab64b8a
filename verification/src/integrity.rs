//! The checks that a module has to pass before it is written and after it
//! is read.

use vstd::prelude::*;
use std::collections::HashMap;
use crate::bytecode::{Bytecode, FunctionRecord, Module, RTTIElement, TypeId, RTTI};
use crate::encode::{label_table, labels_recorded};
use crate::format::{
    entry_ids_valid, first_label, function_entries_ok, function_entry_ok, function_ids_valid,
    ids_below, ids_valid, instruction_ids_valid, jump_target, label_position, labels_defined,
    rtti_in_place, violation, Violation,
};

verus! {

broadcast use vstd::std_specs::hash::group_hash_axioms;

fn places_ok(rtti: &RTTI) -> (ok: bool)
    ensures
        ok == rtti_in_place(rtti@),
{
    let mut i: usize = 0;
    while i < rtti.0.len()
        invariant
            i <= rtti.0.len(),
            forall|k: int|
                0 <= k < i ==> (#[trigger] rtti@[k]).id().0 == k && (rtti@[k] is Primitive <==> k
                    < 3),
        decreases rtti.0.len() - i,
    {
        let (id, primitive) = match &rtti.0[i] {
            RTTIElement::Record(record) => (record.id, false),
            RTTIElement::Array(array) => (array.id, false),
            RTTIElement::Primitive(primitive) => (primitive.id, true),
        };
        assert(rtti@[i as int] is Primitive == primitive);
        if id.0 as usize != i || primitive != (i < 3) {
            return false;
        }
        i += 1;
    }
    true
}

fn ids_all_below(ids: &Vec<TypeId>, n: usize) -> (ok: bool)
    ensures
        ok == ids_below(ids@, n as int),
{
    let mut j: usize = 0;
    while j < ids.len()
        invariant
            j <= ids.len(),
            forall|k: int| 0 <= k < j ==> (#[trigger] ids@[k]).0 < n,
        decreases ids.len() - j,
    {
        if ids[j].0 as usize >= n {
            return false;
        }
        j += 1;
    }
    true
}

fn type_ids_ok(module: &Module) -> (ok: bool)
    ensures
        ok == ids_valid(module@),
{
    let n = module.rtti.0.len();
    let mut i: usize = 0;
    while i < n
        invariant
            i <= n,
            n == module.rtti.0.len(),
            n == module@.rtti.len(),
            forall|k: int| 0 <= k < i ==> entry_ids_valid(#[trigger] module@.rtti[k], n as int),
        decreases n - i,
    {
        let ok = match &module.rtti.0[i] {
            RTTIElement::Record(record) => ids_all_below(&record.field_ids, n),
            RTTIElement::Array(array) => (array.element_id.0 as usize) < n,
            RTTIElement::Primitive(_) => true,
        };
        assert(ok == entry_ids_valid(module@.rtti[i as int], n as int));
        if !ok {
            return false;
        }
        i += 1;
    }
    let mut i: usize = 0;
    while i < module.code.len()
        invariant
            i <= module.code.len(),
            n == module@.rtti.len(),
            forall|k: int|
                0 <= k < i ==> instruction_ids_valid(#[trigger] module@.code[k], n as int),
        decreases module.code.len() - i,
    {
        let ok = match module.code[i] {
            Bytecode::Print { type_id } => (type_id.0 as usize) < n,
            _ => true,
        };
        if !ok {
            assert(!instruction_ids_valid(module@.code[i as int], n as int));
            return false;
        }
        i += 1;
    }
    let mut i: usize = 0;
    while i < module.functions.0.len()
        invariant
            i <= module.functions.0.len(),
            n == module@.rtti.len(),
            module.functions.0.len() == module@.functions.len(),
            forall|k: int|
                0 <= k < i ==> function_ids_valid(#[trigger] module@.functions[k], n as int),
        decreases module.functions.0.len() - i,
    {
        let function = &module.functions.0[i];
        if !ids_all_below(&function.args, n) || function.result.0 as usize >= n {
            assert(!function_ids_valid(module@.functions[i as int], n as int));
            return false;
        }
        i += 1;
    }
    true
}

fn labels_ok(code: &Vec<Bytecode>, table: &HashMap<u64, usize>) -> (ok: bool)
    requires
        labels_recorded(table@, code@, code@.len() as int),
    ensures
        ok == labels_defined(code@),
{
    let mut i: usize = 0;
    while i < code.len()
        invariant
            i <= code.len(),
            labels_recorded(table@, code@, code@.len() as int),
            forall|k: int|
                0 <= k < i ==> match jump_target(#[trigger] code@[k]) {
                    Some(label) => label_position(code@, label) is Some,
                    None => true,
                },
        decreases code.len() - i,
    {
        let target = match code[i] {
            Bytecode::Jump { label } => Some(label),
            Bytecode::JumpZero { label } => Some(label),
            Bytecode::JumpNotZero { label } => Some(label),
            Bytecode::Call { function_label } => Some(function_label),
            _ => None,
        };
        if let Some(label) = target {
            if !table.contains_key(&label) {
                return false;
            }
        }
        i += 1;
    }
    true
}

fn entry_ok(function: &FunctionRecord, code: &Vec<Bytecode>, table: &HashMap<u64, usize>) -> (ok:
    bool)
    requires
        labels_recorded(table@, code@, code@.len() as int),
    ensures
        ok == function_entry_ok(function@, code@),
{
    if function.label_id < 0 {
        return false;
    }
    let label = function.label_id as u64;
    match table.get(&label) {
        None => false,
        Some(found) => {
            let index = *found;
            proof {
                lemma_first_label(code@, label, code@.len() as int);
            }
            let n = code.len();
            if index + 1 >= n {
                return false;
            }
            match code[index + 1] {
                Bytecode::Enter { arguments_count, .. } => {
                    function.args.len() as u64 == arguments_count
                },
                _ => false,
            }
        },
    }
}

/// A label that is found among the first `n` instructions is defined at
/// the place that was found.
pub proof fn lemma_first_label(code: Seq<Bytecode>, label: u64, n: int)
    requires
        0 <= n <= code.len(),
    ensures
        match first_label(code, label, n) {
            Some(index) => 0 <= index < n && code[index] == (Bytecode::Label { id: label }),
            None => true,
        },
    decreases n,
{
    if n > 0 {
        lemma_first_label(code, label, n - 1);
    }
}

fn entries_ok(module: &Module, table: &HashMap<u64, usize>) -> (ok: bool)
    requires
        labels_recorded(table@, module.code@, module.code@.len() as int),
    ensures
        ok == function_entries_ok(module@),
{
    let mut i: usize = 0;
    while i < module.functions.0.len()
        invariant
            i <= module.functions.0.len(),
            module.functions.0.len() == module@.functions.len(),
            labels_recorded(table@, module.code@, module.code@.len() as int),
            forall|k: int|
                0 <= k < i ==> function_entry_ok(#[trigger] module@.functions[k], module@.code),
        decreases module.functions.0.len() - i,
    {
        assert(module@.functions[i as int] == module.functions.0[i as int]@);
        if !entry_ok(&module.functions.0[i], &module.code, table) {
            return false;
        }
        i += 1;
    }
    true
}

/// What is wrong with the module, if anything is.
pub fn check_module(module: &Module) -> (found: Option<Violation>)
    ensures
        found == violation(module@),
{
    if !places_ok(&module.rtti) {
        return Some(Violation::MisplacedTypeId);
    }
    if !type_ids_ok(module) {
        return Some(Violation::DanglingTypeId);
    }
    let table = label_table(&module.code);
    if !labels_ok(&module.code, &table) {
        return Some(Violation::UndefinedLabel);
    }
    if !entries_ok(module, &table) {
        return Some(Violation::BadFunctionEntry);
    }
    None
}

} // verus!
