//! Reading a module from bytes.

use vstd::prelude::*;
use vstd::bytes::{u32_from_le_bytes, u64_from_le_bytes};
use vstd::slice::slice_subrange;
use vstd::string::StringSliceAdditionalSpecFns;
use vstd::utf8::valid_utf8;
use crate::bytecode::{
    ArrayRTTI, Bytecode, FunctionRecord, FunctionTable, Header, Location, MemorySpan, Module,
    ModuleView, PrimitiveRTTI, RTTIElement, RecordRTTI, TypeId, RTTI,
};
use crate::encode::instruction_fields;
use crate::format::{
    bits_int, candidate, chunk, decode_code, decode_header, decode_module, fields_from_bytes,
    first_unresolved, first_unwritten, functions_stop, id_at, instruction_of, instruction_offset,
    location_from, operator_from, parse_function, parse_functions, parse_rtti, parse_rtti_entry,
    raw_at, raws_of, read_ids, read_u32, read_u64, rtti_stop, section, span_in_bounds, u32_at,
    unresolved, Fields, FormatError, HEADER_SIZE, INSTRUCTION_SIZE, MAGIC, Section, VERSION,
};
use crate::integrity::check_module;
use crate::operators::SemanticBinaryOperator;

verus! {

/// `core::str::from_utf8`: the string slice that the bytes are, where they
/// are valid UTF-8, and nothing where they are not.
#[verifier::external_body]
fn text_of_utf8(bytes: &[u8]) -> (text: Option<&str>)
    ensures
        text is Some <==> valid_utf8(bytes@),
        text matches Some(s) ==> s.spec_bytes() == bytes@,
{
    core::str::from_utf8(bytes).ok()
}

fn get_u32(bytes: &[u8], pos: usize) -> (value: u32)
    requires
        pos + 4 <= bytes@.len() <= usize::MAX,
    ensures
        value == u32_at(bytes@, pos as int),
        read_u32(bytes@, pos as int) == Some(value),
{
    u32_from_le_bytes(slice_subrange(bytes, pos, pos + 4))
}

fn get_u64(bytes: &[u8], pos: usize) -> (value: u64)
    requires
        pos + 8 <= bytes@.len() <= usize::MAX,
    ensures
        read_u64(bytes@, pos as int) == Some(value),
{
    u64_from_le_bytes(slice_subrange(bytes, pos, pos + 8))
}

/// The signed number that 64 bits stand for in two's complement.
pub fn bits_to_int(bits: u64) -> (value: i64)
    ensures
        value == bits_int(bits),
{
    if bits <= 0x7fff_ffff_ffff_ffff {
        bits as i64
    } else {
        let below: u64 = u64::MAX - bits;
        -(below as i64) - 1
    }
}

fn location_of(kind: u64, index: u64) -> (loc: Location)
    ensures
        loc == location_from(kind, index),
{
    if kind == 0 {
        Location::Global(index as usize)
    } else if kind == 1 {
        Location::Local(index as usize)
    } else {
        Location::Argument(index as usize)
    }
}

fn operator_of(code: u64) -> (op: SemanticBinaryOperator)
    ensures
        op == operator_from(code),
{
    if code == 0 {
        SemanticBinaryOperator::RealAdd
    } else if code == 1 {
        SemanticBinaryOperator::RealSub
    } else if code == 2 {
        SemanticBinaryOperator::RealMul
    } else if code == 3 {
        SemanticBinaryOperator::RealDiv
    } else if code == 4 {
        SemanticBinaryOperator::RealLe
    } else if code == 5 {
        SemanticBinaryOperator::RealLg
    } else if code == 6 {
        SemanticBinaryOperator::RealGt
    } else if code == 7 {
        SemanticBinaryOperator::RealGe
    } else if code == 8 {
        SemanticBinaryOperator::RealEq
    } else if code == 9 {
        SemanticBinaryOperator::RealNeq
    } else if code == 10 {
        SemanticBinaryOperator::IntAdd
    } else if code == 11 {
        SemanticBinaryOperator::IntSub
    } else if code == 12 {
        SemanticBinaryOperator::IntMul
    } else if code == 13 {
        SemanticBinaryOperator::IntDiv
    } else if code == 14 {
        SemanticBinaryOperator::IntMod
    } else if code == 15 {
        SemanticBinaryOperator::IntLe
    } else if code == 16 {
        SemanticBinaryOperator::IntLg
    } else if code == 17 {
        SemanticBinaryOperator::IntGt
    } else if code == 18 {
        SemanticBinaryOperator::IntGe
    } else if code == 19 {
        SemanticBinaryOperator::IntEq
    } else if code == 20 {
        SemanticBinaryOperator::IntNeq
    } else if code == 21 {
        SemanticBinaryOperator::BoolAnd
    } else if code == 22 {
        SemanticBinaryOperator::BoolXor
    } else {
        SemanticBinaryOperator::BoolOr
    }
}

fn candidate_of(f: &Fields) -> (instruction: Bytecode)
    ensures
        instruction == candidate(*f),
{
    if f.opcode == 0 {
        Bytecode::IntConst { value: bits_to_int(f.a) }
    } else if f.opcode == 1 {
        Bytecode::RealConst { bits: f.a }
    } else if f.opcode == 2 {
        Bytecode::Load { loc: location_of(f.a, f.b) }
    } else if f.opcode == 3 {
        Bytecode::Store { loc: location_of(f.a, f.b) }
    } else if f.opcode == 4 {
        Bytecode::AddressOf { loc: location_of(f.a, f.b) }
    } else if f.opcode == 5 {
        Bytecode::Dup
    } else if f.opcode == 6 {
        Bytecode::Drop
    } else if f.opcode == 7 {
        Bytecode::BinOp { op: operator_of(f.a) }
    } else if f.opcode == 8 {
        Bytecode::StoreAddress
    } else if f.opcode == 9 {
        Bytecode::LoadAddress
    } else if f.opcode == 10 {
        Bytecode::AllocRecord { size: f.a }
    } else if f.opcode == 11 {
        Bytecode::AllocArray { element_size: f.a, size: f.b }
    } else if f.opcode == 12 {
        Bytecode::ArraySize
    } else if f.opcode == 13 {
        Bytecode::GetIndex
    } else if f.opcode == 14 {
        Bytecode::GetField { field_offset: f.a }
    } else if f.opcode == 15 {
        Bytecode::Label { id: f.a }
    } else if f.opcode == 16 {
        Bytecode::Jump { label: f.a }
    } else if f.opcode == 17 {
        Bytecode::JumpZero { label: f.a }
    } else if f.opcode == 18 {
        Bytecode::JumpNotZero { label: f.a }
    } else if f.opcode == 19 {
        Bytecode::Enter { arguments_count: f.a, local_count: f.b }
    } else if f.opcode == 20 {
        Bytecode::Ret
    } else if f.opcode == 21 {
        Bytecode::Call { function_label: f.a }
    } else if f.opcode == 22 {
        Bytecode::Print { type_id: TypeId(f.a as u32) }
    } else if f.opcode == 23 {
        Bytecode::Panic { code: f.a }
    } else if f.opcode == 24 {
        Bytecode::IntToBool
    } else if f.opcode == 25 {
        Bytecode::RealToInt
    } else {
        Bytecode::IntToReal
    }
}

/// The instruction that three numbers stand for, if they stand for one.
pub fn fields_to_instruction(f: &Fields) -> (instruction: Option<Bytecode>)
    ensures
        instruction == instruction_of(*f),
{
    let found = candidate_of(f);
    let back = instruction_fields(&found);
    if back.opcode == f.opcode && back.a == f.a && back.b == f.b {
        Some(found)
    } else {
        None
    }
}

fn get_fields(section: &[u8], i: usize) -> (f: Fields)
    requires
        (i + 1) * INSTRUCTION_SIZE <= section@.len() <= usize::MAX,
    ensures
        f == fields_from_bytes(chunk(section@, i as int)),
{
    let start = i * INSTRUCTION_SIZE;
    let piece = slice_subrange(section, start, start + INSTRUCTION_SIZE);
    let a = u64_from_le_bytes(slice_subrange(piece, 1, 9));
    let b = u64_from_le_bytes(slice_subrange(piece, 9, 17));
    Fields { opcode: piece[0], a, b }
}

fn unresolve(raw: Bytecode, raws: &Vec<Bytecode>, base: u32) -> (instruction: Option<Bytecode>)
    ensures
        instruction == unresolved(raw, raws@, base as int),
{
    let target = match raw {
        Bytecode::Jump { label } => Some(label),
        Bytecode::JumpZero { label } => Some(label),
        Bytecode::JumpNotZero { label } => Some(label),
        Bytecode::Call { function_label } => Some(function_label),
        _ => None,
    };
    match target {
        None => Some(raw),
        Some(offset) => {
            if offset < base as u64 {
                return None;
            }
            let delta = offset - base as u64;
            if delta % 17 != 0 {
                return None;
            }
            let index = delta / 17;
            if index >= raws.len() as u64 {
                return None;
            }
            match raws[index as usize] {
                Bytecode::Label { id } => Some(
                    match raw {
                        Bytecode::Jump { .. } => Bytecode::Jump { label: id },
                        Bytecode::JumpZero { .. } => Bytecode::JumpZero { label: id },
                        Bytecode::JumpNotZero { .. } => Bytecode::JumpNotZero { label: id },
                        Bytecode::Call { .. } => Bytecode::Call { function_label: id },
                        other => other,
                    },
                ),
                _ => None,
            }
        },
    }
}

/// The offset of instruction `i` of a code section that starts at `base`.
fn instruction_at(base: u32, i: usize) -> (offset: u64)
    requires
        base + 17 * i <= u64::MAX,
    ensures
        offset == instruction_offset(base as int, i as int),
{
    base as u64 + 17 * (i as u64)
}

/// The instructions of a code section that starts at offset `base` of its
/// module.
pub fn read_code(section: &[u8], base: u32) -> (result: Result<Vec<Bytecode>, FormatError>)
    requires
        base + section@.len() <= u64::MAX,
    ensures
        match result {
            Ok(code) => decode_code(section@, base as int) == Ok::<Seq<Bytecode>, FormatError>(
                code@,
            ),
            Err(error) => decode_code(section@, base as int) == Err::<Seq<Bytecode>, FormatError>(
                error,
            ),
        },
{
    let n = section.len() / INSTRUCTION_SIZE;
    if section.len() % INSTRUCTION_SIZE != 0 {
        return Err(FormatError::MalformedCode { offset: instruction_at(base, n) });
    }
    let mut raws: Vec<Bytecode> = Vec::new();
    let mut i: usize = 0;
    while i < n
        invariant
            i <= n,
            n == section@.len() / (INSTRUCTION_SIZE as nat),
            section@.len() % (INSTRUCTION_SIZE as nat) == 0,
            section@.len() <= usize::MAX,
            raws@.len() == i,
            base + section@.len() <= u64::MAX,
            forall|k: int| 0 <= k < i ==> (#[trigger] raw_at(section@, k)) == Some(raws@[k]),
            first_unwritten(section@, 0) == first_unwritten(section@, i as int),
        decreases n - i,
    {
        match fields_to_instruction(&get_fields(section, i)) {
            None => {
                return Err(FormatError::MalformedCode { offset: instruction_at(base, i) });
            },
            Some(raw) => {
                raws.push(raw);
            },
        }
        i += 1;
    }
    let mut code: Vec<Bytecode> = Vec::new();
    let mut i: usize = 0;
    while i < n
        invariant
            i <= n,
            n == section@.len() / (INSTRUCTION_SIZE as nat),
            section@.len() % (INSTRUCTION_SIZE as nat) == 0,
            raws@ == raws_of(section@),
            raws@.len() == n,
            forall|k: int| 0 <= k < n ==> (#[trigger] raw_at(section@, k)) is Some,
            code@.len() == i,
            section@.len() <= usize::MAX,
            base + section@.len() <= u64::MAX,
            forall|k: int|
                0 <= k < i ==> (#[trigger] unresolved(raws@[k], raws@, base as int)) == Some(
                    code@[k],
                ),
            first_unresolved(raws@, base as int, 0) == first_unresolved(
                raws@,
                base as int,
                i as int,
            ),
        decreases n - i,
    {
        match unresolve(raws[i], &raws, base) {
            None => {
                return Err(FormatError::BadJumpTarget { offset: instruction_at(base, i) });
            },
            Some(instruction) => {
                code.push(instruction);
            },
        }
        i += 1;
    }
    assert(code@ =~= Seq::new(
        n as nat,
        |i: int| unresolved(raws_of(section@)[i], raws_of(section@), base as int)->0,
    ));
    Ok(code)
}

fn get_ids(bytes: &[u8], pos: usize, count: u32) -> (ids: Option<Vec<TypeId>>)
    requires
        pos <= bytes@.len() <= usize::MAX,
    ensures
        match ids {
            Some(list) => read_ids(bytes@, pos as int, count as int) == Some(list@),
            None => read_ids(bytes@, pos as int, count as int) is None,
        },
{
    let available = (bytes.len() - pos) / 4;
    if count as usize > available {
        return None;
    }
    let mut list: Vec<TypeId> = Vec::new();
    let mut i: usize = 0;
    while i < count as usize
        invariant
            i <= count,
            pos + 4 * count <= bytes@.len() <= usize::MAX,
            list@.len() == i,
            forall|k: int| 0 <= k < i ==> (#[trigger] list@[k]) == id_at(bytes@, pos as int, k),
        decreases count - i,
    {
        let value = get_u32(bytes, pos + 4 * i);
        list.push(TypeId(value));
        i += 1;
    }
    Some(list)
}

fn get_rtti_entry(bytes: &[u8], pos: usize) -> (entry: Option<(RTTIElement, usize)>)
    requires
        pos < bytes@.len() <= usize::MAX,
    ensures
        match entry {
            Some((element, next)) => parse_rtti_entry(bytes@, pos as int) == Some(
                (element@, next as int),
            ) && pos < next <= bytes@.len(),
            None => parse_rtti_entry(bytes@, pos as int) is None,
        },
{
    let length = bytes.len();
    if length - pos < 5 {
        return None;
    }
    let id = TypeId(get_u32(bytes, pos + 1));
    let tag = bytes[pos];
    if tag == 0 {
        Some((RTTIElement::Primitive(PrimitiveRTTI { id }), pos + 5))
    } else if tag == 1 {
        if length - pos < 9 {
            return None;
        }
        let count = get_u32(bytes, pos + 5);
        match get_ids(bytes, pos + 9, count) {
            None => None,
            Some(field_ids) => Some(
                (RTTIElement::Record(RecordRTTI { id, field_ids }), pos + 9 + 4 * (count as usize)),
            ),
        }
    } else if tag == 2 {
        if length - pos < 9 {
            return None;
        }
        let element_id = TypeId(get_u32(bytes, pos + 5));
        Some((RTTIElement::Array(ArrayRTTI { id, element_id }), pos + 9))
    } else {
        None
    }
}

/// The entries of a type table section.
pub fn read_rtti(bytes: &[u8]) -> (table: Result<RTTI, usize>)
    ensures
        match table {
            Ok(rtti) => parse_rtti(bytes@, 0) == Some(rtti@),
            Err(stop) => parse_rtti(bytes@, 0) is None && stop == rtti_stop(bytes@, 0) && stop
                <= bytes@.len(),
        },
{
    let mut entries: Vec<RTTIElement> = Vec::new();
    let mut pos: usize = 0;
    let length = bytes.len();
    while pos < length
        invariant
            pos <= length,
            length == bytes@.len(),
            match parse_rtti(bytes@, pos as int) {
                Some(rest) => parse_rtti(bytes@, 0) == Some(
                    entries@.map_values(|element: RTTIElement| element@) + rest,
                ),
                None => parse_rtti(bytes@, 0) is None,
            },
            rtti_stop(bytes@, 0) == rtti_stop(bytes@, pos as int),
        decreases length - pos,
    {
        match get_rtti_entry(bytes, pos) {
            None => {
                return Err(pos);
            },
            Some((element, next)) => {
                entries.push(element);
                pos = next;
            },
        }
    }
    Ok(RTTI(entries))
}

fn get_function(bytes: &[u8], pos: usize) -> (function: Option<(FunctionRecord, usize)>)
    requires
        pos < bytes@.len() <= usize::MAX,
    ensures
        match function {
            Some((record, next)) => parse_function(bytes@, pos as int) == Some(
                (record@, next as int),
            ) && pos < next <= bytes@.len(),
            None => parse_function(bytes@, pos as int) is None,
        },
{
    let length = bytes.len();
    if length - pos < 4 {
        return None;
    }
    let name_length = get_u32(bytes, pos) as usize;
    if length - (pos + 4) < name_length {
        return None;
    }
    let name_end = pos + 4 + name_length;
    let name = match text_of_utf8(slice_subrange(bytes, pos + 4, name_end)) {
        None => {
            return None;
        },
        Some(text) => text,
    };
    proof {
        vstd::utf8::encode_utf8_decode_utf8(name@);
    }
    if length - name_end < 12 {
        return None;
    }
    let label = get_u64(bytes, name_end);
    let count = get_u32(bytes, name_end + 8);
    let args = match get_ids(bytes, name_end + 12, count) {
        None => {
            return None;
        },
        Some(args) => args,
    };
    let args_end = name_end + 12 + 4 * (count as usize);
    if length - args_end < 4 {
        return None;
    }
    let result = TypeId(get_u32(bytes, args_end));
    Some(
        (
            FunctionRecord { name: name.to_owned(), label_id: bits_to_int(label), args, result },
            args_end + 4,
        ),
    )
}

/// The functions of a function table section.
pub fn read_functions(bytes: &[u8]) -> (table: Result<FunctionTable, usize>)
    ensures
        match table {
            Ok(functions) => parse_functions(bytes@, 0) == Some(functions@),
            Err(stop) => parse_functions(bytes@, 0) is None && stop == functions_stop(bytes@, 0)
                && stop <= bytes@.len(),
        },
{
    let mut records: Vec<FunctionRecord> = Vec::new();
    let mut pos: usize = 0;
    let length = bytes.len();
    while pos < length
        invariant
            pos <= length,
            length == bytes@.len(),
            match parse_functions(bytes@, pos as int) {
                Some(rest) => parse_functions(bytes@, 0) == Some(
                    records@.map_values(|record: FunctionRecord| record@) + rest,
                ),
                None => parse_functions(bytes@, 0) is None,
            },
            functions_stop(bytes@, 0) == functions_stop(bytes@, pos as int),
        decreases length - pos,
    {
        match get_function(bytes, pos) {
            None => {
                return Err(pos);
            },
            Some((record, next)) => {
                records.push(record);
                pos = next;
            },
        }
    }
    Ok(FunctionTable(records))
}

fn span_ok(span: &MemorySpan, length: usize) -> (ok: bool)
    ensures
        ok == span_in_bounds(*span, length as int),
{
    span.offset as u64 >= HEADER_SIZE as u64 && span.offset as u64 + span.length as u64
        <= length as u64
}

/// The header of an input, or why the input is no module: it is too
/// short, does not start with the magic number, has another major version,
/// or a section of it does not lie behind the header and inside the input.
pub fn read_header(bytes: &[u8]) -> (result: Result<Header, FormatError>)
    ensures
        result == decode_header(bytes@),
{
    let length = bytes.len();
    if length < HEADER_SIZE {
        return Err(FormatError::Truncated);
    }
    let header = Header {
        magic: get_u32(bytes, 0),
        version: get_u32(bytes, 4),
        code_span: MemorySpan { offset: get_u32(bytes, 8), length: get_u32(bytes, 12) },
        function_table_span: MemorySpan {
            offset: get_u32(bytes, 16),
            length: get_u32(bytes, 20),
        },
        rtti_span: MemorySpan { offset: get_u32(bytes, 24), length: get_u32(bytes, 28) },
        function_count: get_u32(bytes, 32),
        global_count: get_u32(bytes, 36),
    };
    if header.magic != MAGIC {
        return Err(FormatError::BadMagic);
    }
    if header.version / 0x1_0000 != VERSION / 0x1_0000 {
        return Err(FormatError::UnsupportedVersion);
    }
    if !span_ok(&header.code_span, length) {
        return Err(FormatError::SpanOutOfBounds { section: Section::Code });
    }
    if !span_ok(&header.function_table_span, length) {
        return Err(FormatError::SpanOutOfBounds { section: Section::FunctionTable });
    }
    if !span_ok(&header.rtti_span, length) {
        return Err(FormatError::SpanOutOfBounds { section: Section::TypeTable });
    }
    Ok(header)
}

/// The bytes of a section that lies inside an input of a length.
fn take_section<'a>(bytes: &'a [u8], length: usize, span: &MemorySpan) -> (part: &'a [u8])
    requires
        length == bytes@.len(),
        span_in_bounds(*span, length as int),
    ensures
        part@ == section(bytes@, *span),
{
    let start = span.offset as usize;
    slice_subrange(bytes, start, start + span.length as usize)
}

impl Module {
    /// The module that the bytes stand for. Nothing of the input is used
    /// before its header is accepted, and a module is handed out only whole
    /// and checked: every type number is that of an entry of the type table,
    /// every jump leads to a label, every function starts at an `Enter`.
    pub fn decode(bytes: &[u8]) -> (result: Result<Module, FormatError>)
        ensures
            match result {
                Ok(module) => decode_module(bytes@) == Ok::<ModuleView, FormatError>(module@),
                Err(error) => decode_module(bytes@) == Err::<ModuleView, FormatError>(error),
            },
    {
        let header = match read_header(bytes) {
            Err(error) => {
                return Err(error);
            },
            Ok(header) => header,
        };
        let length = bytes.len();
        let code_section = take_section(bytes, length, &header.code_span);
        let code = match read_code(code_section, header.code_span.offset) {
            Err(error) => {
                return Err(error);
            },
            Ok(code) => code,
        };
        let function_section = take_section(bytes, length, &header.function_table_span);
        let functions = match read_functions(function_section) {
            Err(stop) => {
                return Err(
                    FormatError::MalformedFunctionTable {
                        offset: header.function_table_span.offset as u64 + stop as u64,
                    },
                );
            },
            Ok(functions) => functions,
        };
        if functions.0.len() as u64 != header.function_count as u64 {
            return Err(FormatError::FunctionCountMismatch);
        }
        let rtti = match read_rtti(take_section(bytes, length, &header.rtti_span)) {
            Err(stop) => {
                return Err(
                    FormatError::MalformedTypeTable {
                        offset: header.rtti_span.offset as u64 + stop as u64,
                    },
                );
            },
            Ok(rtti) => rtti,
        };
        let module = Module { global_count: header.global_count, code, functions, rtti };
        match check_module(&module) {
            Some(found) => Err(FormatError::Invalid(found)),
            None => Ok(module),
        }
    }
}

} // verus!
