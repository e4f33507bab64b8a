//! Writing a module as bytes.

use vstd::prelude::*;
use vstd::bytes::{u32_to_le_bytes, u64_to_le_bytes};
use std::collections::HashMap;
use crate::bytecode::{
    Bytecode, FunctionRecord, FunctionTable, Header, Location, MemorySpan, Module, ModuleView,
    RTTIElement, TypeId, RTTI,
};
use crate::format::{
    code_bytes, encodable, fields, fields_bytes, first_label, function_bytes, functions_bytes,
    header_bytes, ids_bytes, int_bits, labels_defined, lemma_fields_bytes, location_index,
    location_kind, module_bytes, operator_code, resolved, rtti_bytes, rtti_entry_bytes, span_bytes,
    violation, EncodeError, Fields, HEADER_SIZE, INSTRUCTION_SIZE, MAGIC, VERSION,
};
use crate::integrity::{check_module, lemma_first_label};
use crate::operators::SemanticBinaryOperator;

verus! {

broadcast use vstd::std_specs::hash::group_hash_axioms;

/// A signed number as 64 bits in two's complement.
pub fn int_to_bits(value: i64) -> (bits: u64)
    ensures
        bits == int_bits(value),
{
    if value >= 0 {
        value as u64
    } else {
        let below: u64 = (-(value + 1)) as u64;
        u64::MAX - below
    }
}

fn location_fields(opcode: u8, loc: &Location) -> (f: Fields)
    ensures
        f == (Fields { opcode, a: location_kind(*loc), b: location_index(*loc) }),
{
    match loc {
        Location::Global(index) => Fields { opcode, a: 0, b: *index as u64 },
        Location::Local(index) => Fields { opcode, a: 1, b: *index as u64 },
        Location::Argument(index) => Fields { opcode, a: 2, b: *index as u64 },
    }
}

fn operator_to_code(op: &SemanticBinaryOperator) -> (code: u64)
    ensures
        code == operator_code(*op),
{
    match op {
        SemanticBinaryOperator::RealAdd => 0,
        SemanticBinaryOperator::RealSub => 1,
        SemanticBinaryOperator::RealMul => 2,
        SemanticBinaryOperator::RealDiv => 3,
        SemanticBinaryOperator::RealLe => 4,
        SemanticBinaryOperator::RealLg => 5,
        SemanticBinaryOperator::RealGt => 6,
        SemanticBinaryOperator::RealGe => 7,
        SemanticBinaryOperator::RealEq => 8,
        SemanticBinaryOperator::RealNeq => 9,
        SemanticBinaryOperator::IntAdd => 10,
        SemanticBinaryOperator::IntSub => 11,
        SemanticBinaryOperator::IntMul => 12,
        SemanticBinaryOperator::IntDiv => 13,
        SemanticBinaryOperator::IntMod => 14,
        SemanticBinaryOperator::IntLe => 15,
        SemanticBinaryOperator::IntLg => 16,
        SemanticBinaryOperator::IntGt => 17,
        SemanticBinaryOperator::IntGe => 18,
        SemanticBinaryOperator::IntEq => 19,
        SemanticBinaryOperator::IntNeq => 20,
        SemanticBinaryOperator::BoolAnd => 21,
        SemanticBinaryOperator::BoolXor => 22,
        SemanticBinaryOperator::BoolOr => 23,
    }
}

/// The three numbers that an instruction is written as.
pub fn instruction_fields(instruction: &Bytecode) -> (f: Fields)
    ensures
        f == fields(*instruction),
{
    match instruction {
        Bytecode::IntConst { value } => Fields { opcode: 0, a: int_to_bits(*value), b: 0 },
        Bytecode::RealConst { bits } => Fields { opcode: 1, a: *bits, b: 0 },
        Bytecode::Load { loc } => location_fields(2, loc),
        Bytecode::Store { loc } => location_fields(3, loc),
        Bytecode::AddressOf { loc } => location_fields(4, loc),
        Bytecode::Dup => Fields { opcode: 5, a: 0, b: 0 },
        Bytecode::Drop => Fields { opcode: 6, a: 0, b: 0 },
        Bytecode::BinOp { op } => Fields { opcode: 7, a: operator_to_code(op), b: 0 },
        Bytecode::StoreAddress => Fields { opcode: 8, a: 0, b: 0 },
        Bytecode::LoadAddress => Fields { opcode: 9, a: 0, b: 0 },
        Bytecode::AllocRecord { size } => Fields { opcode: 10, a: *size, b: 0 },
        Bytecode::AllocArray { element_size, size } => Fields {
            opcode: 11,
            a: *element_size,
            b: *size,
        },
        Bytecode::ArraySize => Fields { opcode: 12, a: 0, b: 0 },
        Bytecode::GetIndex => Fields { opcode: 13, a: 0, b: 0 },
        Bytecode::GetField { field_offset } => Fields { opcode: 14, a: *field_offset, b: 0 },
        Bytecode::Label { id } => Fields { opcode: 15, a: *id, b: 0 },
        Bytecode::Jump { label } => Fields { opcode: 16, a: *label, b: 0 },
        Bytecode::JumpZero { label } => Fields { opcode: 17, a: *label, b: 0 },
        Bytecode::JumpNotZero { label } => Fields { opcode: 18, a: *label, b: 0 },
        Bytecode::Enter { arguments_count, local_count } => Fields {
            opcode: 19,
            a: *arguments_count,
            b: *local_count,
        },
        Bytecode::Ret => Fields { opcode: 20, a: 0, b: 0 },
        Bytecode::Call { function_label } => Fields { opcode: 21, a: *function_label, b: 0 },
        Bytecode::Print { type_id } => Fields { opcode: 22, a: type_id.0 as u64, b: 0 },
        Bytecode::Panic { code } => Fields { opcode: 23, a: *code, b: 0 },
        Bytecode::IntToBool => Fields { opcode: 24, a: 0, b: 0 },
        Bytecode::RealToInt => Fields { opcode: 25, a: 0, b: 0 },
        Bytecode::IntToReal => Fields { opcode: 26, a: 0, b: 0 },
    }
}

fn put_u32(buffer: &mut Vec<u8>, value: u32)
    ensures
        final(buffer)@ == old(buffer)@ + vstd::bytes::spec_u32_to_le_bytes(value),
{
    let mut bytes = u32_to_le_bytes(value);
    buffer.append(&mut bytes);
}

fn put_u64(buffer: &mut Vec<u8>, value: u64)
    ensures
        final(buffer)@ == old(buffer)@ + vstd::bytes::spec_u64_to_le_bytes(value),
{
    let mut bytes = u64_to_le_bytes(value);
    buffer.append(&mut bytes);
}

fn put_fields(buffer: &mut Vec<u8>, f: Fields)
    ensures
        final(buffer)@ == old(buffer)@ + fields_bytes(f),
{
    buffer.push(f.opcode);
    put_u64(buffer, f.a);
    put_u64(buffer, f.b);
}

fn put_ids(buffer: &mut Vec<u8>, ids: &Vec<TypeId>)
    ensures
        final(buffer)@ == old(buffer)@ + ids_bytes(ids@, ids@.len() as int),
{
    let mut i: usize = 0;
    while i < ids.len()
        invariant
            i <= ids.len(),
            buffer@ == old(buffer)@ + ids_bytes(ids@, i as int),
        decreases ids.len() - i,
    {
        put_u32(buffer, ids[i].0);
        i += 1;
    }
}

/// The table holds, for every label that one of the first `n`
/// instructions defines, the place of the first that does, and no other
/// label.
pub open spec fn labels_recorded(table: Map<u64, usize>, code: Seq<Bytecode>, n: int) -> bool {
    forall|label: u64|
        (#[trigger] table.contains_key(label)) == (first_label(code, label, n) is Some) && (
        table.contains_key(label) ==> table[label] == first_label(code, label, n)->0)
}

/// The place of the first definition of every label.
pub fn label_table(code: &Vec<Bytecode>) -> (table: HashMap<u64, usize>)
    ensures
        labels_recorded(table@, code@, code@.len() as int),
{
    let mut table: HashMap<u64, usize> = HashMap::new();
    let mut i: usize = 0;
    while i < code.len()
        invariant
            i <= code.len(),
            labels_recorded(table@, code@, i as int),
        decreases code.len() - i,
    {
        match code[i] {
            Bytecode::Label { id } => {
                if !table.contains_key(&id) {
                    table.insert(id, i);
                }
            },
            _ => {},
        }
        i += 1;
    }
    table
}

/// What can be written as bytes.
pub trait Encodable {
    /// What has to hold of a value for it to be written.
    spec fn encodable(&self) -> bool;

    /// The bytes that the value is written as.
    spec fn encoding(&self) -> Seq<u8>;

    /// Writes the value behind what the buffer holds.
    fn encode_inline(&self, buffer: &mut Vec<u8>)
        requires
            self.encodable(),
        ensures
            final(buffer)@ == old(buffer)@ + self.encoding(),
    ;

    /// The value as bytes.
    fn encode(&self) -> (bytes: Vec<u8>)
        requires
            self.encodable(),
        ensures
            bytes@ == self.encoding(),
    {
        let mut bytes: Vec<u8> = Vec::new();
        self.encode_inline(&mut bytes);
        bytes
    }
}

/// The code is short enough for every offset in it to be a span's number.
pub open spec fn code_fits(code: Seq<Bytecode>) -> bool {
    HEADER_SIZE + code.len() * INSTRUCTION_SIZE <= u32::MAX
}

fn resolve(instruction: Bytecode, code: &Vec<Bytecode>, table: &HashMap<u64, usize>) -> (raw:
    Bytecode)
    requires
        labels_recorded(table@, code@, code@.len() as int),
        code_fits(code@),
    ensures
        raw == resolved(instruction, code@),
{
    let target = match instruction {
        Bytecode::Jump { label } => Some(label),
        Bytecode::JumpZero { label } => Some(label),
        Bytecode::JumpNotZero { label } => Some(label),
        Bytecode::Call { function_label } => Some(function_label),
        _ => None,
    };
    match target {
        None => instruction,
        Some(label) => match table.get(&label) {
            None => instruction,
            Some(index) => {
                proof {
                    lemma_first_label(code@, label, code@.len() as int);
                }
                let offset: u64 = HEADER_SIZE as u64 + INSTRUCTION_SIZE as u64 * (*index as u64);
                match instruction {
                    Bytecode::Jump { .. } => Bytecode::Jump { label: offset },
                    Bytecode::JumpZero { .. } => Bytecode::JumpZero { label: offset },
                    Bytecode::JumpNotZero { .. } => Bytecode::JumpNotZero { label: offset },
                    Bytecode::Call { .. } => Bytecode::Call { function_label: offset },
                    other => other,
                }
            },
        },
    }
}

impl Encodable for Vec<Bytecode> {
    open spec fn encodable(&self) -> bool {
        labels_defined(self@) && code_fits(self@)
    }

    open spec fn encoding(&self) -> Seq<u8> {
        code_bytes(self@, self@.len() as int)
    }

    fn encode_inline(&self, buffer: &mut Vec<u8>) {
        let table = label_table(self);
        let mut i: usize = 0;
        while i < self.len()
            invariant
                i <= self.len(),
                labels_recorded(table@, self@, self@.len() as int),
                code_fits(self@),
                buffer@ == old(buffer)@ + code_bytes(self@, i as int),
            decreases self.len() - i,
        {
            let raw = resolve(self[i], self, &table);
            put_fields(buffer, instruction_fields(&raw));
            i += 1;
        }
    }
}

fn put_rtti_entry(buffer: &mut Vec<u8>, entry: &RTTIElement)
    ensures
        final(buffer)@ == old(buffer)@ + rtti_entry_bytes(entry@),
{
    match entry {
        RTTIElement::Primitive(primitive) => {
            buffer.push(0);
            put_u32(buffer, primitive.id.0);
        },
        RTTIElement::Record(record) => {
            buffer.push(1);
            put_u32(buffer, record.id.0);
            put_u32(buffer, record.field_ids.len() as u32);
            put_ids(buffer, &record.field_ids);
        },
        RTTIElement::Array(array) => {
            buffer.push(2);
            put_u32(buffer, array.id.0);
            put_u32(buffer, array.element_id.0);
        },
    }
}

impl Encodable for RTTI {
    open spec fn encodable(&self) -> bool {
        true
    }

    open spec fn encoding(&self) -> Seq<u8> {
        rtti_bytes(self@, self@.len() as int)
    }

    fn encode_inline(&self, buffer: &mut Vec<u8>) {
        let mut i: usize = 0;
        while i < self.0.len()
            invariant
                i <= self.0.len(),
                self.0.len() == self@.len(),
                buffer@ == old(buffer)@ + rtti_bytes(self@, i as int),
            decreases self.0.len() - i,
        {
            put_rtti_entry(buffer, &self.0[i]);
            i += 1;
        }
    }
}

fn put_function(buffer: &mut Vec<u8>, function: &FunctionRecord)
    ensures
        final(buffer)@ == old(buffer)@ + function_bytes(function@),
{
    let name = function.name.as_str().as_bytes();
    put_u32(buffer, name.len() as u32);
    buffer.extend_from_slice(name);
    put_u64(buffer, int_to_bits(function.label_id));
    put_u32(buffer, function.args.len() as u32);
    put_ids(buffer, &function.args);
    put_u32(buffer, function.result.0);
}

impl Encodable for FunctionTable {
    open spec fn encodable(&self) -> bool {
        true
    }

    open spec fn encoding(&self) -> Seq<u8> {
        functions_bytes(self@, self@.len() as int)
    }

    fn encode_inline(&self, buffer: &mut Vec<u8>) {
        let mut i: usize = 0;
        while i < self.0.len()
            invariant
                i <= self.0.len(),
                self.0.len() == self@.len(),
                buffer@ == old(buffer)@ + functions_bytes(self@, i as int),
            decreases self.0.len() - i,
        {
            put_function(buffer, &self.0[i]);
            i += 1;
        }
    }
}

fn put_span(buffer: &mut Vec<u8>, span: &MemorySpan)
    ensures
        final(buffer)@ == old(buffer)@ + span_bytes(*span),
{
    put_u32(buffer, span.offset);
    put_u32(buffer, span.length);
}

impl Encodable for Header {
    open spec fn encodable(&self) -> bool {
        true
    }

    open spec fn encoding(&self) -> Seq<u8> {
        header_bytes(*self)
    }

    fn encode_inline(&self, buffer: &mut Vec<u8>) {
        put_u32(buffer, self.magic);
        put_u32(buffer, self.version);
        put_span(buffer, &self.code_span);
        put_span(buffer, &self.function_table_span);
        put_span(buffer, &self.rtti_span);
        put_u32(buffer, self.function_count);
        put_u32(buffer, self.global_count);
    }
}

/// The first `n` instructions take 17 bytes each.
pub proof fn lemma_code_bytes_len(code: Seq<Bytecode>, n: int)
    requires
        0 <= n <= code.len(),
    ensures
        code_bytes(code, n).len() == n * INSTRUCTION_SIZE,
    decreases n,
{
    if n > 0 {
        lemma_code_bytes_len(code, n - 1);
        lemma_fields_bytes(fields(resolved(code[n - 1], code)));
    }
}

/// Why a module that cannot be written cannot.
pub open spec fn encode_error(module: ModuleView) -> EncodeError {
    match violation(module) {
        Some(found) => EncodeError::Invalid(found),
        None => EncodeError::TooLarge,
    }
}

impl Module {
    /// The module as bytes: the header, the code with every label resolved,
    /// the function table and the type table. A module that fails a check
    /// or is too large is not written.
    pub fn encode(&self) -> (result: Result<Vec<u8>, EncodeError>)
        ensures
            match result {
                Ok(bytes) => encodable(self@) && bytes@ == module_bytes(self@),
                Err(error) => !encodable(self@) && error == encode_error(self@),
            },
    {
        if let Some(found) = check_module(self) {
            return Err(EncodeError::Invalid(found));
        }
        proof {
            lemma_code_bytes_len(self.code@, self.code@.len() as int);
        }
        let limit: usize = 0xffff_ffff;
        if self.code.len() > (limit - HEADER_SIZE) / INSTRUCTION_SIZE {
            return Err(EncodeError::TooLarge);
        }
        let mut code = self.code.encode();
        let mut functions = self.functions.encode();
        let mut rtti = self.rtti.encode();
        let code_end: usize = HEADER_SIZE + code.len();
        if functions.len() > limit - code_end {
            return Err(EncodeError::TooLarge);
        }
        let functions_end: usize = code_end + functions.len();
        if rtti.len() > limit - functions_end {
            return Err(EncodeError::TooLarge);
        }
        let header = Header {
            magic: MAGIC,
            version: VERSION,
            code_span: MemorySpan { offset: HEADER_SIZE as u32, length: code.len() as u32 },
            function_table_span: MemorySpan {
                offset: code_end as u32,
                length: functions.len() as u32,
            },
            rtti_span: MemorySpan { offset: functions_end as u32, length: rtti.len() as u32 },
            function_count: self.functions.0.len() as u32,
            global_count: self.global_count,
        };
        let mut bytes = header.encode();
        bytes.append(&mut code);
        bytes.append(&mut functions);
        bytes.append(&mut rtti);
        Ok(bytes)
    }
}

} // verus!
