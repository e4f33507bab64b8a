//! The binary module format, as functions on sequences of bytes.
//!
//! A module is a header of 40 bytes and three sections: the code, the
//! function table and the type table. Every number is little-endian.
//! An instruction takes 17 bytes: the opcode and two operands of 8 bytes.
//! A jump or a call holds, in place of its label, the offset from the
//! module's start of the `Label` instruction that defines the label.

use vstd::prelude::*;
use vstd::bytes::*;
use crate::bytecode::{
    Bytecode, FunctionView, Header, Location, MemorySpan, ModuleView, RttiView, TypeId,
};
use vstd::utf8::{decode_utf8, encode_utf8, valid_utf8};
use crate::operators::SemanticBinaryOperator;

verus! {

/// The four bytes `I`, `B`, `C`, `M` read as a little-endian number.
pub const MAGIC: u32 = 0x4d43_4249;

/// Major version 1, minor version 0: the major version is the upper half.
pub const VERSION: u32 = 0x0001_0000;

/// The bytes that a header takes: ten numbers of four bytes.
pub const HEADER_SIZE: usize = 40;

/// The bytes that an instruction takes: the opcode and two operands of
/// eight bytes.
pub const INSTRUCTION_SIZE: usize = 17;

/// The major version packed into a version number.
pub open spec fn major_of(version: u32) -> int {
    version as int / 0x1_0000
}

// ---------------------------------------------------------------------
// Operands
// ---------------------------------------------------------------------
/// A signed number as 64 bits in two's complement.
pub open spec fn int_bits(value: i64) -> u64 {
    if value >= 0 {
        value as u64
    } else {
        (value + 0x1_0000_0000_0000_0000) as u64
    }
}

/// The signed number that 64 bits stand for in two's complement.
pub open spec fn bits_int(bits: u64) -> i64 {
    if bits <= 0x7fff_ffff_ffff_ffff {
        bits as i64
    } else {
        (bits - 0x1_0000_0000_0000_0000) as i64
    }
}

/// 0 for a global, 1 for a local, 2 for an argument.
pub open spec fn location_kind(loc: Location) -> u64 {
    match loc {
        Location::Global(_) => 0,
        Location::Local(_) => 1,
        Location::Argument(_) => 2,
    }
}

/// The slot number of a location.
pub open spec fn location_index(loc: Location) -> u64 {
    match loc {
        Location::Global(index) => index as u64,
        Location::Local(index) => index as u64,
        Location::Argument(index) => index as u64,
    }
}

/// The location of a kind and a slot number.
pub open spec fn location_from(kind: u64, index: u64) -> Location {
    if kind == 0 {
        Location::Global(index as usize)
    } else if kind == 1 {
        Location::Local(index as usize)
    } else {
        Location::Argument(index as usize)
    }
}

/// The number that an operator is written as.
pub open spec fn operator_code(op: SemanticBinaryOperator) -> u64 {
    match op {
        SemanticBinaryOperator::RealAdd => 0,
        SemanticBinaryOperator::RealSub => 1,
        SemanticBinaryOperator::RealMul => 2,
        SemanticBinaryOperator::RealDiv => 3,
        SemanticBinaryOperator::RealLe => 4,
        SemanticBinaryOperator::RealLg => 5,
        SemanticBinaryOperator::RealGt => 6,
        SemanticBinaryOperator::RealGe => 7,
        SemanticBinaryOperator::RealEq => 8,
        SemanticBinaryOperator::RealNeq => 9,
        SemanticBinaryOperator::IntAdd => 10,
        SemanticBinaryOperator::IntSub => 11,
        SemanticBinaryOperator::IntMul => 12,
        SemanticBinaryOperator::IntDiv => 13,
        SemanticBinaryOperator::IntMod => 14,
        SemanticBinaryOperator::IntLe => 15,
        SemanticBinaryOperator::IntLg => 16,
        SemanticBinaryOperator::IntGt => 17,
        SemanticBinaryOperator::IntGe => 18,
        SemanticBinaryOperator::IntEq => 19,
        SemanticBinaryOperator::IntNeq => 20,
        SemanticBinaryOperator::BoolAnd => 21,
        SemanticBinaryOperator::BoolXor => 22,
        SemanticBinaryOperator::BoolOr => 23,
    }
}

/// The operator that a number stands for.
pub open spec fn operator_from(code: u64) -> SemanticBinaryOperator {
    if code == 0 {
        SemanticBinaryOperator::RealAdd
    } else if code == 1 {
        SemanticBinaryOperator::RealSub
    } else if code == 2 {
        SemanticBinaryOperator::RealMul
    } else if code == 3 {
        SemanticBinaryOperator::RealDiv
    } else if code == 4 {
        SemanticBinaryOperator::RealLe
    } else if code == 5 {
        SemanticBinaryOperator::RealLg
    } else if code == 6 {
        SemanticBinaryOperator::RealGt
    } else if code == 7 {
        SemanticBinaryOperator::RealGe
    } else if code == 8 {
        SemanticBinaryOperator::RealEq
    } else if code == 9 {
        SemanticBinaryOperator::RealNeq
    } else if code == 10 {
        SemanticBinaryOperator::IntAdd
    } else if code == 11 {
        SemanticBinaryOperator::IntSub
    } else if code == 12 {
        SemanticBinaryOperator::IntMul
    } else if code == 13 {
        SemanticBinaryOperator::IntDiv
    } else if code == 14 {
        SemanticBinaryOperator::IntMod
    } else if code == 15 {
        SemanticBinaryOperator::IntLe
    } else if code == 16 {
        SemanticBinaryOperator::IntLg
    } else if code == 17 {
        SemanticBinaryOperator::IntGt
    } else if code == 18 {
        SemanticBinaryOperator::IntGe
    } else if code == 19 {
        SemanticBinaryOperator::IntEq
    } else if code == 20 {
        SemanticBinaryOperator::IntNeq
    } else if code == 21 {
        SemanticBinaryOperator::BoolAnd
    } else if code == 22 {
        SemanticBinaryOperator::BoolXor
    } else {
        SemanticBinaryOperator::BoolOr
    }
}

// ---------------------------------------------------------------------
// One instruction
// ---------------------------------------------------------------------
/// The three numbers that an instruction is written as.
pub struct Fields {
    pub opcode: u8,
    pub a: u64,
    pub b: u64,
}

/// The numbers of an instruction. An operand that the instruction does not
/// have is zero. In a jump or a call, `a` is what the instruction holds
/// for its label.
pub open spec fn fields(instruction: Bytecode) -> Fields {
    match instruction {
        Bytecode::IntConst { value } => Fields { opcode: 0, a: int_bits(value), b: 0 },
        Bytecode::RealConst { bits } => Fields { opcode: 1, a: bits, b: 0 },
        Bytecode::Load { loc } => Fields {
            opcode: 2,
            a: location_kind(loc),
            b: location_index(loc),
        },
        Bytecode::Store { loc } => Fields {
            opcode: 3,
            a: location_kind(loc),
            b: location_index(loc),
        },
        Bytecode::AddressOf { loc } => Fields {
            opcode: 4,
            a: location_kind(loc),
            b: location_index(loc),
        },
        Bytecode::Dup => Fields { opcode: 5, a: 0, b: 0 },
        Bytecode::Drop => Fields { opcode: 6, a: 0, b: 0 },
        Bytecode::BinOp { op } => Fields { opcode: 7, a: operator_code(op), b: 0 },
        Bytecode::StoreAddress => Fields { opcode: 8, a: 0, b: 0 },
        Bytecode::LoadAddress => Fields { opcode: 9, a: 0, b: 0 },
        Bytecode::AllocRecord { size } => Fields { opcode: 10, a: size, b: 0 },
        Bytecode::AllocArray { element_size, size } => Fields {
            opcode: 11,
            a: element_size,
            b: size,
        },
        Bytecode::ArraySize => Fields { opcode: 12, a: 0, b: 0 },
        Bytecode::GetIndex => Fields { opcode: 13, a: 0, b: 0 },
        Bytecode::GetField { field_offset } => Fields { opcode: 14, a: field_offset, b: 0 },
        Bytecode::Label { id } => Fields { opcode: 15, a: id, b: 0 },
        Bytecode::Jump { label } => Fields { opcode: 16, a: label, b: 0 },
        Bytecode::JumpZero { label } => Fields { opcode: 17, a: label, b: 0 },
        Bytecode::JumpNotZero { label } => Fields { opcode: 18, a: label, b: 0 },
        Bytecode::Enter { arguments_count, local_count } => Fields {
            opcode: 19,
            a: arguments_count,
            b: local_count,
        },
        Bytecode::Ret => Fields { opcode: 20, a: 0, b: 0 },
        Bytecode::Call { function_label } => Fields { opcode: 21, a: function_label, b: 0 },
        Bytecode::Print { type_id } => Fields { opcode: 22, a: type_id.0 as u64, b: 0 },
        Bytecode::Panic { code } => Fields { opcode: 23, a: code, b: 0 },
        Bytecode::IntToBool => Fields { opcode: 24, a: 0, b: 0 },
        Bytecode::RealToInt => Fields { opcode: 25, a: 0, b: 0 },
        Bytecode::IntToReal => Fields { opcode: 26, a: 0, b: 0 },
    }
}

/// The only instruction that three numbers can stand for.
pub open spec fn candidate(f: Fields) -> Bytecode {
    if f.opcode == 0 {
        Bytecode::IntConst { value: bits_int(f.a) }
    } else if f.opcode == 1 {
        Bytecode::RealConst { bits: f.a }
    } else if f.opcode == 2 {
        Bytecode::Load { loc: location_from(f.a, f.b) }
    } else if f.opcode == 3 {
        Bytecode::Store { loc: location_from(f.a, f.b) }
    } else if f.opcode == 4 {
        Bytecode::AddressOf { loc: location_from(f.a, f.b) }
    } else if f.opcode == 5 {
        Bytecode::Dup
    } else if f.opcode == 6 {
        Bytecode::Drop
    } else if f.opcode == 7 {
        Bytecode::BinOp { op: operator_from(f.a) }
    } else if f.opcode == 8 {
        Bytecode::StoreAddress
    } else if f.opcode == 9 {
        Bytecode::LoadAddress
    } else if f.opcode == 10 {
        Bytecode::AllocRecord { size: f.a }
    } else if f.opcode == 11 {
        Bytecode::AllocArray { element_size: f.a, size: f.b }
    } else if f.opcode == 12 {
        Bytecode::ArraySize
    } else if f.opcode == 13 {
        Bytecode::GetIndex
    } else if f.opcode == 14 {
        Bytecode::GetField { field_offset: f.a }
    } else if f.opcode == 15 {
        Bytecode::Label { id: f.a }
    } else if f.opcode == 16 {
        Bytecode::Jump { label: f.a }
    } else if f.opcode == 17 {
        Bytecode::JumpZero { label: f.a }
    } else if f.opcode == 18 {
        Bytecode::JumpNotZero { label: f.a }
    } else if f.opcode == 19 {
        Bytecode::Enter { arguments_count: f.a, local_count: f.b }
    } else if f.opcode == 20 {
        Bytecode::Ret
    } else if f.opcode == 21 {
        Bytecode::Call { function_label: f.a }
    } else if f.opcode == 22 {
        Bytecode::Print { type_id: TypeId(f.a as u32) }
    } else if f.opcode == 23 {
        Bytecode::Panic { code: f.a }
    } else if f.opcode == 24 {
        Bytecode::IntToBool
    } else if f.opcode == 25 {
        Bytecode::RealToInt
    } else {
        Bytecode::IntToReal
    }
}

/// The instruction that three numbers stand for, if they are what some
/// instruction is written as: an unknown opcode, an operand out of range
/// and a stray operand all give `None`.
pub open spec fn instruction_of(f: Fields) -> Option<Bytecode> {
    if fields(candidate(f)) == f {
        Some(candidate(f))
    } else {
        None
    }
}

/// Reading back what an instruction is written as gives the instruction.
pub proof fn lemma_instruction_fields(instruction: Bytecode)
    ensures
        instruction_of(fields(instruction)) == Some(instruction),
{
}

/// The 17 bytes of an instruction.
pub open spec fn fields_bytes(f: Fields) -> Seq<u8> {
    seq![f.opcode] + spec_u64_to_le_bytes(f.a) + spec_u64_to_le_bytes(f.b)
}

/// The three numbers that 17 bytes hold.
pub open spec fn fields_from_bytes(chunk: Seq<u8>) -> Fields {
    Fields {
        opcode: chunk[0],
        a: spec_u64_from_le_bytes(chunk.subrange(1, 9)),
        b: spec_u64_from_le_bytes(chunk.subrange(9, 17)),
    }
}

/// The three numbers of an instruction are read back from its bytes.
pub proof fn lemma_fields_bytes(f: Fields)
    ensures
        fields_bytes(f).len() == INSTRUCTION_SIZE,
        fields_from_bytes(fields_bytes(f)) == f,
{
    lemma_auto_spec_u64_to_from_le_bytes();
    let bytes = fields_bytes(f);
    assert(bytes.subrange(1, 9) =~= spec_u64_to_le_bytes(f.a));
    assert(bytes.subrange(9, 17) =~= spec_u64_to_le_bytes(f.b));
}

// ---------------------------------------------------------------------
// Labels
// ---------------------------------------------------------------------
/// The first of the first `n` instructions that defines the label.
pub open spec fn first_label(code: Seq<Bytecode>, label: u64, n: int) -> Option<int>
    decreases n,
{
    if n <= 0 || n > code.len() {
        None
    } else {
        match first_label(code, label, n - 1) {
            Some(i) => Some(i),
            None => if code[n - 1] == (Bytecode::Label { id: label }) {
                Some(n - 1)
            } else {
                None
            },
        }
    }
}

/// The place of the instruction that jumps and calls to `label` lead to:
/// the first `Label` with that number.
pub open spec fn label_position(code: Seq<Bytecode>, label: u64) -> Option<int> {
    first_label(code, label, code.len() as int)
}

/// What a jump or a call holds for its label.
pub open spec fn jump_target(instruction: Bytecode) -> Option<u64> {
    match instruction {
        Bytecode::Jump { label } => Some(label),
        Bytecode::JumpZero { label } => Some(label),
        Bytecode::JumpNotZero { label } => Some(label),
        Bytecode::Call { function_label } => Some(function_label),
        _ => None,
    }
}

/// The same jump or call to another target; any other instruction as it is.
pub open spec fn with_target(instruction: Bytecode, target: u64) -> Bytecode {
    match instruction {
        Bytecode::Jump { .. } => Bytecode::Jump { label: target },
        Bytecode::JumpZero { .. } => Bytecode::JumpZero { label: target },
        Bytecode::JumpNotZero { .. } => Bytecode::JumpNotZero { label: target },
        Bytecode::Call { .. } => Bytecode::Call { function_label: target },
        other => other,
    }
}

/// The offset of instruction `index` in a module whose code starts at
/// `base`.
pub open spec fn offset_of(base: int, index: int) -> u64 {
    (base + index * INSTRUCTION_SIZE) as u64
}

/// An instruction as it is written in a module: a jump or a call holds the
/// offset of its label.
pub open spec fn resolved(instruction: Bytecode, code: Seq<Bytecode>) -> Bytecode {
    match jump_target(instruction) {
        Some(label) => match label_position(code, label) {
            Some(index) => with_target(instruction, offset_of(HEADER_SIZE as int, index)),
            None => instruction,
        },
        None => instruction,
    }
}

/// The label that is defined at `offset`, if a `Label` stands there.
pub open spec fn label_at(raws: Seq<Bytecode>, base: int, offset: u64) -> Option<u64> {
    let delta = offset - base;
    if delta >= 0 && delta % (INSTRUCTION_SIZE as int) == 0 && delta / (INSTRUCTION_SIZE as int)
        < raws.len() {
        match raws[delta / (INSTRUCTION_SIZE as int)] {
            Bytecode::Label { id } => Some(id),
            _ => None,
        }
    } else {
        None
    }
}

/// An instruction read from a module, with the label in place of the
/// offset again.
pub open spec fn unresolved(raw: Bytecode, raws: Seq<Bytecode>, base: int) -> Option<Bytecode> {
    match jump_target(raw) {
        Some(offset) => match label_at(raws, base, offset) {
            Some(id) => Some(with_target(raw, id)),
            None => None,
        },
        None => Some(raw),
    }
}

// ---------------------------------------------------------------------
// The code section
// ---------------------------------------------------------------------
/// The first `n` instructions of `code` as bytes.
pub open spec fn code_bytes(code: Seq<Bytecode>, n: int) -> Seq<u8>
    decreases n,
{
    if n <= 0 || n > code.len() {
        Seq::empty()
    } else {
        code_bytes(code, n - 1) + fields_bytes(fields(resolved(code[n - 1], code)))
    }
}

/// The bytes of instruction `i` of a code section.
pub open spec fn chunk(section: Seq<u8>, i: int) -> Seq<u8> {
    section.subrange(i * INSTRUCTION_SIZE, i * INSTRUCTION_SIZE + INSTRUCTION_SIZE)
}

/// Instruction `i` of a code section as it is written, with offsets in
/// place of labels.
pub open spec fn raw_at(section: Seq<u8>, i: int) -> Option<Bytecode> {
    instruction_of(fields_from_bytes(chunk(section, i)))
}

/// The instructions of a code section as they are written.
pub open spec fn raws_of(section: Seq<u8>) -> Seq<Bytecode> {
    Seq::new(section.len() / (INSTRUCTION_SIZE as nat), |i: int| raw_at(section, i)->0)
}

/// Why a module is rejected before anything in it is used.
#[derive(PartialEq, Eq, Structural, Debug, Clone, Copy)]
pub enum Violation {
    /// An entry of the type table does not stand at the place of its own
    /// number, or a primitive stands outside the first three places, or
    /// something else inside them.
    MisplacedTypeId,
    /// A type number in the type table, in a `Print` or in a function's
    /// signature is not the number of an entry.
    DanglingTypeId,
    /// A jump or a call names a label that no `Label` defines.
    UndefinedLabel,
    /// A function's label is not followed by an `Enter` for as many
    /// arguments as the signature has.
    BadFunctionEntry,
}

/// The three sections of a module.
#[derive(PartialEq, Eq, Structural, Debug, Clone, Copy)]
pub enum Section {
    Code,
    FunctionTable,
    TypeTable,
}

/// Why bytes are no module.
#[derive(PartialEq, Eq, Structural, Debug, Clone, Copy)]
pub enum FormatError {
    /// The input is shorter than a header.
    Truncated,
    BadMagic,
    UnsupportedVersion,
    /// A section starts inside the header or ends behind the input: the
    /// first of the three that does.
    SpanOutOfBounds { section: Section },
    /// The code is no whole number of instructions, or holds an unknown
    /// opcode, an operand out of range or a stray operand. The offset is
    /// that of the first instruction that is cut short or badly written,
    /// from the module's start.
    MalformedCode { offset: u64 },
    /// A jump or a call leads to no `Label`. The offset is that of the
    /// first such instruction, from the module's start.
    BadJumpTarget { offset: u64 },
    /// The function table does not end with the end of a function. The
    /// offset is that of the first function that cannot be read, from the
    /// module's start.
    MalformedFunctionTable { offset: u64 },
    /// The header counts other functions than the table holds.
    FunctionCountMismatch,
    /// The type table does not end with the end of an entry. The offset is
    /// that of the first entry that cannot be read, from the module's
    /// start.
    MalformedTypeTable { offset: u64 },
    Invalid(Violation),
}

/// Why a module is not written.
#[derive(PartialEq, Eq, Structural, Debug, Clone, Copy)]
pub enum EncodeError {
    Invalid(Violation),
    /// The module takes more bytes than a span can count.
    TooLarge,
}

/// The first instruction from `i` on that is badly written, or the count
/// of the whole instructions if there is none.
pub open spec fn first_unwritten(section: Seq<u8>, i: int) -> int
    decreases section.len() / (INSTRUCTION_SIZE as nat) - i,
{
    if i < 0 || i >= section.len() / (INSTRUCTION_SIZE as nat) || raw_at(section, i) is None {
        i
    } else {
        first_unwritten(section, i + 1)
    }
}

/// The first instruction from `i` on that leads to no label, or the count
/// of the instructions if there is none.
pub open spec fn first_unresolved(raws: Seq<Bytecode>, base: int, i: int) -> int
    decreases raws.len() - i,
{
    if i < 0 || i >= raws.len() || unresolved(raws[i], raws, base) is None {
        i
    } else {
        first_unresolved(raws, base, i + 1)
    }
}

/// The offset of instruction `i` of a code section that starts at `base`.
pub open spec fn instruction_offset(base: int, i: int) -> u64 {
    (base + i * INSTRUCTION_SIZE) as u64
}

/// The instructions that a code section stands for, where the section
/// starts at offset `base` of its module.
pub open spec fn decode_code(section: Seq<u8>, base: int) -> Result<Seq<Bytecode>, FormatError> {
    let n = section.len() / (INSTRUCTION_SIZE as nat);
    if section.len() % (INSTRUCTION_SIZE as nat) != 0 {
        Err(FormatError::MalformedCode { offset: instruction_offset(base, n as int) })
    } else if exists|i: int| 0 <= i < n && (#[trigger] raw_at(section, i)) is None {
        Err(
            FormatError::MalformedCode {
                offset: instruction_offset(base, first_unwritten(section, 0)),
            },
        )
    } else if exists|i: int|
        0 <= i < n && (#[trigger] unresolved(raws_of(section)[i], raws_of(section), base)) is None {
        Err(
            FormatError::BadJumpTarget {
                offset: instruction_offset(base, first_unresolved(raws_of(section), base, 0)),
            },
        )
    } else {
        Ok(Seq::new(n, |i: int| unresolved(raws_of(section)[i], raws_of(section), base)->0))
    }
}

// ---------------------------------------------------------------------
// Numbers and lists of type numbers
// ---------------------------------------------------------------------
/// The number in the four bytes from `pos` on, if the input has them.
pub open spec fn read_u32(bytes: Seq<u8>, pos: int) -> Option<u32> {
    if 0 <= pos && pos + 4 <= bytes.len() {
        Some(spec_u32_from_le_bytes(bytes.subrange(pos, pos + 4)))
    } else {
        None
    }
}

/// The number in the eight bytes from `pos` on, if the input has them.
pub open spec fn read_u64(bytes: Seq<u8>, pos: int) -> Option<u64> {
    if 0 <= pos && pos + 8 <= bytes.len() {
        Some(spec_u64_from_le_bytes(bytes.subrange(pos, pos + 8)))
    } else {
        None
    }
}

/// The first `n` type numbers as bytes, four for each.
pub open spec fn ids_bytes(ids: Seq<TypeId>, n: int) -> Seq<u8>
    decreases n,
{
    if n <= 0 || n > ids.len() {
        Seq::empty()
    } else {
        ids_bytes(ids, n - 1) + spec_u32_to_le_bytes(ids[n - 1].0)
    }
}

/// Type number `i` of a list that starts at `pos`.
pub open spec fn id_at(bytes: Seq<u8>, pos: int, i: int) -> TypeId {
    TypeId(spec_u32_from_le_bytes(bytes.subrange(pos + 4 * i, pos + 4 * i + 4)))
}

/// The list of `count` type numbers from `pos` on, if the input has
/// them.
pub open spec fn read_ids(bytes: Seq<u8>, pos: int, count: int) -> Option<Seq<TypeId>> {
    if 0 <= pos && 0 <= count && pos + 4 * count <= bytes.len() {
        Some(Seq::new(count as nat, |i: int| id_at(bytes, pos, i)))
    } else {
        None
    }
}

// ---------------------------------------------------------------------
// The type table
// ---------------------------------------------------------------------
/// An entry of the type table as bytes: a tag, 0 for a primitive, 1 for
/// a record and 2 for an array, the entry's number, and for a record the
/// count and the numbers of its fields, for an array the number of its
/// elements' type.
pub open spec fn rtti_entry_bytes(entry: RttiView) -> Seq<u8> {
    match entry {
        RttiView::Primitive { id } => seq![0u8] + spec_u32_to_le_bytes(id.0),
        RttiView::Record { id, field_ids } => seq![1u8] + spec_u32_to_le_bytes(id.0)
            + spec_u32_to_le_bytes(field_ids.len() as u32) + ids_bytes(
            field_ids,
            field_ids.len() as int,
        ),
        RttiView::Array { id, element_id } => seq![2u8] + spec_u32_to_le_bytes(id.0)
            + spec_u32_to_le_bytes(element_id.0),
    }
}

/// The first `n` entries as bytes.
pub open spec fn rtti_bytes(rtti: Seq<RttiView>, n: int) -> Seq<u8>
    decreases n,
{
    if n <= 0 || n > rtti.len() {
        Seq::empty()
    } else {
        rtti_bytes(rtti, n - 1) + rtti_entry_bytes(rtti[n - 1])
    }
}

/// The entry that starts at `pos`, and where the next one starts.
pub open spec fn parse_rtti_entry(bytes: Seq<u8>, pos: int) -> Option<(RttiView, int)> {
    if !(0 <= pos < bytes.len()) {
        None
    } else {
        match read_u32(bytes, pos + 1) {
            None => None,
            Some(id) => if bytes[pos] == 0 {
                Some((RttiView::Primitive { id: TypeId(id) }, pos + 5))
            } else if bytes[pos] == 1 {
                match read_u32(bytes, pos + 5) {
                    None => None,
                    Some(count) => match read_ids(bytes, pos + 9, count as int) {
                        None => None,
                        Some(field_ids) => Some(
                            (RttiView::Record { id: TypeId(id), field_ids }, pos + 9 + 4 * count),
                        ),
                    },
                }
            } else if bytes[pos] == 2 {
                match read_u32(bytes, pos + 5) {
                    None => None,
                    Some(element) => Some(
                        (RttiView::Array { id: TypeId(id), element_id: TypeId(element) }, pos + 9),
                    ),
                }
            } else {
                None
            },
        }
    }
}

/// Where reading the entries from `pos` on stops: at the first entry that
/// cannot be read, or at the end of the section.
pub open spec fn rtti_stop(bytes: Seq<u8>, pos: int) -> int
    decreases bytes.len() - pos,
{
    if pos >= bytes.len() {
        pos
    } else {
        match parse_rtti_entry(bytes, pos) {
            None => pos,
            Some((_, next)) => if next <= pos {
                pos
            } else {
                rtti_stop(bytes, next)
            },
        }
    }
}

/// The entries from `pos` to the end of the section, which the last one
/// has to fill exactly.
pub open spec fn parse_rtti(bytes: Seq<u8>, pos: int) -> Option<Seq<RttiView>>
    decreases bytes.len() - pos,
{
    if pos >= bytes.len() {
        if pos == bytes.len() {
            Some(Seq::empty())
        } else {
            None
        }
    } else {
        match parse_rtti_entry(bytes, pos) {
            None => None,
            Some((entry, next)) => if next <= pos {
                None
            } else {
                match parse_rtti(bytes, next) {
                    None => None,
                    Some(rest) => Some(seq![entry] + rest),
                }
            },
        }
    }
}

// ---------------------------------------------------------------------
// The function table
// ---------------------------------------------------------------------
/// A function as bytes: the length of its name in bytes and the name in
/// UTF-8, its label, the count and the numbers of its arguments' types,
/// and the number of its result's type.
pub open spec fn function_bytes(function: FunctionView) -> Seq<u8> {
    spec_u32_to_le_bytes(encode_utf8(function.name).len() as u32) + encode_utf8(function.name)
        + spec_u64_to_le_bytes(int_bits(function.label_id)) + spec_u32_to_le_bytes(
        function.args.len() as u32,
    ) + ids_bytes(function.args, function.args.len() as int) + spec_u32_to_le_bytes(
        function.result.0,
    )
}

/// The first `n` functions as bytes.
pub open spec fn functions_bytes(functions: Seq<FunctionView>, n: int) -> Seq<u8>
    decreases n,
{
    if n <= 0 || n > functions.len() {
        Seq::empty()
    } else {
        functions_bytes(functions, n - 1) + function_bytes(functions[n - 1])
    }
}

/// The function that starts at `pos`, and where the next one starts.
pub open spec fn parse_function(bytes: Seq<u8>, pos: int) -> Option<(FunctionView, int)> {
    match read_u32(bytes, pos) {
        None => None,
        Some(name_length) => {
            let name_end = pos + 4 + name_length;
            if name_end > bytes.len() || !valid_utf8(bytes.subrange(pos + 4, name_end)) {
                None
            } else {
                match (read_u64(bytes, name_end), read_u32(bytes, name_end + 8)) {
                    (Some(label), Some(count)) => match (
                        read_ids(bytes, name_end + 12, count as int),
                        read_u32(bytes, name_end + 12 + 4 * count),
                    ) {
                        (Some(args), Some(result)) => Some(
                            (
                                FunctionView {
                                    name: decode_utf8(bytes.subrange(pos + 4, name_end)),
                                    label_id: bits_int(label),
                                    args,
                                    result: TypeId(result),
                                },
                                name_end + 16 + 4 * count,
                            ),
                        ),
                        _ => None,
                    },
                    _ => None,
                }
            }
        },
    }
}

/// Where reading the functions from `pos` on stops: at the first function
/// that cannot be read, or at the end of the section.
pub open spec fn functions_stop(bytes: Seq<u8>, pos: int) -> int
    decreases bytes.len() - pos,
{
    if pos >= bytes.len() {
        pos
    } else {
        match parse_function(bytes, pos) {
            None => pos,
            Some((_, next)) => if next <= pos {
                pos
            } else {
                functions_stop(bytes, next)
            },
        }
    }
}

/// The functions from `pos` to the end of the section, which the last one
/// has to fill exactly.
pub open spec fn parse_functions(bytes: Seq<u8>, pos: int) -> Option<Seq<FunctionView>>
    decreases bytes.len() - pos,
{
    if pos >= bytes.len() {
        if pos == bytes.len() {
            Some(Seq::empty())
        } else {
            None
        }
    } else {
        match parse_function(bytes, pos) {
            None => None,
            Some((function, next)) => if next <= pos {
                None
            } else {
                match parse_functions(bytes, next) {
                    None => None,
                    Some(rest) => Some(seq![function] + rest),
                }
            },
        }
    }
}

// ---------------------------------------------------------------------
// The header
// ---------------------------------------------------------------------
/// A span as bytes: its offset and its length.
pub open spec fn span_bytes(span: MemorySpan) -> Seq<u8> {
    spec_u32_to_le_bytes(span.offset) + spec_u32_to_le_bytes(span.length)
}

/// A header as bytes: its ten numbers in the order of its fields.
pub open spec fn header_bytes(header: Header) -> Seq<u8> {
    spec_u32_to_le_bytes(header.magic) + spec_u32_to_le_bytes(header.version) + span_bytes(
        header.code_span,
    ) + span_bytes(header.function_table_span) + span_bytes(header.rtti_span)
        + spec_u32_to_le_bytes(header.function_count) + spec_u32_to_le_bytes(header.global_count)
}

/// The number in the four bytes from `pos` on.
pub open spec fn u32_at(bytes: Seq<u8>, pos: int) -> u32 {
    spec_u32_from_le_bytes(bytes.subrange(pos, pos + 4))
}

/// The header that the first 40 bytes stand for.
pub open spec fn parse_header(bytes: Seq<u8>) -> Header {
    Header {
        magic: u32_at(bytes, 0),
        version: u32_at(bytes, 4),
        code_span: MemorySpan { offset: u32_at(bytes, 8), length: u32_at(bytes, 12) },
        function_table_span: MemorySpan { offset: u32_at(bytes, 16), length: u32_at(bytes, 20) },
        rtti_span: MemorySpan { offset: u32_at(bytes, 24), length: u32_at(bytes, 28) },
        function_count: u32_at(bytes, 32),
        global_count: u32_at(bytes, 36),
    }
}

/// A section lies behind the header and inside the input.
pub open spec fn span_in_bounds(span: MemorySpan, length: int) -> bool {
    HEADER_SIZE <= span.offset && span.offset + span.length <= length
}

/// The bytes of a section.
pub open spec fn section(bytes: Seq<u8>, span: MemorySpan) -> Seq<u8> {
    bytes.subrange(span.offset as int, span.offset + span.length)
}

/// The header of an input, or why the input is no module.
pub open spec fn decode_header(bytes: Seq<u8>) -> Result<Header, FormatError> {
    let header = parse_header(bytes);
    if bytes.len() < HEADER_SIZE {
        Err(FormatError::Truncated)
    } else if header.magic != MAGIC {
        Err(FormatError::BadMagic)
    } else if major_of(header.version) != major_of(VERSION) {
        Err(FormatError::UnsupportedVersion)
    } else if !span_in_bounds(header.code_span, bytes.len() as int) {
        Err(FormatError::SpanOutOfBounds { section: Section::Code })
    } else if !span_in_bounds(header.function_table_span, bytes.len() as int) {
        Err(FormatError::SpanOutOfBounds { section: Section::FunctionTable })
    } else if !span_in_bounds(header.rtti_span, bytes.len() as int) {
        Err(FormatError::SpanOutOfBounds { section: Section::TypeTable })
    } else {
        Ok(header)
    }
}

// ---------------------------------------------------------------------
// Integrity
// ---------------------------------------------------------------------
/// Every entry stands at the place of its own number, and the primitives
/// are the entries of the first three places.
pub open spec fn rtti_in_place(rtti: Seq<RttiView>) -> bool {
    forall|i: int|
        0 <= i < rtti.len() ==> (#[trigger] rtti[i]).id().0 == i && (rtti[i] is Primitive <==> i
            < 3)
}

/// Every number of the list is below `n`.
pub open spec fn ids_below(ids: Seq<TypeId>, n: int) -> bool {
    forall|j: int| 0 <= j < ids.len() ==> (#[trigger] ids[j]).0 < n
}

/// Every type number that an entry names is below `n`.
pub open spec fn entry_ids_valid(entry: RttiView, n: int) -> bool {
    match entry {
        RttiView::Record { field_ids, .. } => ids_below(field_ids, n),
        RttiView::Array { element_id, .. } => element_id.0 < n,
        RttiView::Primitive { .. } => true,
    }
}

/// The type number that an instruction names, if it names one, is below
/// `n`.
pub open spec fn instruction_ids_valid(instruction: Bytecode, n: int) -> bool {
    match instruction {
        Bytecode::Print { type_id } => type_id.0 < n,
        _ => true,
    }
}

/// Every type number of a function's signature is below `n`.
pub open spec fn function_ids_valid(function: FunctionView, n: int) -> bool {
    ids_below(function.args, n) && function.result.0 < n
}

/// Every type number in the module is the number of an entry of its type
/// table.
pub open spec fn ids_valid(module: ModuleView) -> bool {
    let n = module.rtti.len() as int;
    &&& forall|i: int| 0 <= i < n ==> entry_ids_valid(#[trigger] module.rtti[i], n)
    &&& forall|i: int|
        0 <= i < module.code.len() ==> instruction_ids_valid(#[trigger] module.code[i], n)
    &&& forall|i: int|
        0 <= i < module.functions.len() ==> function_ids_valid(#[trigger] module.functions[i], n)
}

/// Every jump and every call leads to a label that the code defines.
pub open spec fn labels_defined(code: Seq<Bytecode>) -> bool {
    forall|i: int|
        0 <= i < code.len() ==> match jump_target(#[trigger] code[i]) {
            Some(label) => label_position(code, label) is Some,
            None => true,
        }
}

/// The function's label is defined and the next instruction is the `Enter`
/// of a function with as many arguments.
pub open spec fn function_entry_ok(function: FunctionView, code: Seq<Bytecode>) -> bool {
    function.label_id >= 0 && match label_position(code, function.label_id as u64) {
        Some(index) => index + 1 < code.len() && match code[index + 1] {
            Bytecode::Enter { arguments_count, .. } => arguments_count == function.args.len(),
            _ => false,
        },
        None => false,
    }
}

/// Every function of the table starts as it has to.
pub open spec fn function_entries_ok(module: ModuleView) -> bool {
    forall|i: int|
        0 <= i < module.functions.len() ==> function_entry_ok(
            #[trigger] module.functions[i],
            module.code,
        )
}

/// What is wrong with a module, the first of the four checks that fails.
pub open spec fn violation(module: ModuleView) -> Option<Violation> {
    if !rtti_in_place(module.rtti) {
        Some(Violation::MisplacedTypeId)
    } else if !ids_valid(module) {
        Some(Violation::DanglingTypeId)
    } else if !labels_defined(module.code) {
        Some(Violation::UndefinedLabel)
    } else if !function_entries_ok(module) {
        Some(Violation::BadFunctionEntry)
    } else {
        None
    }
}

// ---------------------------------------------------------------------
// The module
// ---------------------------------------------------------------------
/// The bytes that the code takes.
pub open spec fn code_size(module: ModuleView) -> int {
    module.code.len() * INSTRUCTION_SIZE
}

/// The bytes that the function table takes.
pub open spec fn functions_size(module: ModuleView) -> int {
    functions_bytes(module.functions, module.functions.len() as int).len() as int
}

/// The bytes that the type table takes.
pub open spec fn rtti_size(module: ModuleView) -> int {
    rtti_bytes(module.rtti, module.rtti.len() as int).len() as int
}

/// The module's encoding is short enough for its spans.
pub open spec fn fits(module: ModuleView) -> bool {
    HEADER_SIZE + code_size(module) + functions_size(module) + rtti_size(module) <= u32::MAX
}

/// The module passes the checks and is short enough to be written.
pub open spec fn encodable(module: ModuleView) -> bool {
    violation(module) is None && fits(module)
}

/// The header that is written for a module: the three sections follow
/// the header and one another without a gap.
pub open spec fn header_of(module: ModuleView) -> Header {
    Header {
        magic: MAGIC,
        version: VERSION,
        code_span: MemorySpan { offset: HEADER_SIZE as u32, length: code_size(module) as u32 },
        function_table_span: MemorySpan {
            offset: (HEADER_SIZE + code_size(module)) as u32,
            length: functions_size(module) as u32,
        },
        rtti_span: MemorySpan {
            offset: (HEADER_SIZE + code_size(module) + functions_size(module)) as u32,
            length: rtti_size(module) as u32,
        },
        function_count: module.functions.len() as u32,
        global_count: module.global_count,
    }
}

/// A module as bytes.
pub open spec fn module_bytes(module: ModuleView) -> Seq<u8> {
    header_bytes(header_of(module)) + code_bytes(module.code, module.code.len() as int)
        + functions_bytes(module.functions, module.functions.len() as int) + rtti_bytes(
        module.rtti,
        module.rtti.len() as int,
    )
}

/// The module that bytes stand for, or why they stand for none.
pub open spec fn decode_module(bytes: Seq<u8>) -> Result<ModuleView, FormatError> {
    match decode_header(bytes) {
        Err(error) => Err(error),
        Ok(header) => match decode_code(
            section(bytes, header.code_span),
            header.code_span.offset as int,
        ) {
            Err(error) => Err(error),
            Ok(code) => match parse_functions(section(bytes, header.function_table_span), 0) {
                None => Err(
                    FormatError::MalformedFunctionTable {
                        offset: (header.function_table_span.offset + functions_stop(
                            section(bytes, header.function_table_span),
                            0,
                        )) as u64,
                    },
                ),
                Some(functions) => if functions.len() != header.function_count {
                    Err(FormatError::FunctionCountMismatch)
                } else {
                    match parse_rtti(section(bytes, header.rtti_span), 0) {
                        None => Err(
                            FormatError::MalformedTypeTable {
                                offset: (header.rtti_span.offset + rtti_stop(
                                    section(bytes, header.rtti_span),
                                    0,
                                )) as u64,
                            },
                        ),
                        Some(rtti) => {
                            let module = ModuleView {
                                global_count: header.global_count,
                                code,
                                functions,
                                rtti,
                            };
                            match violation(module) {
                                Some(found) => Err(FormatError::Invalid(found)),
                                None => Ok(module),
                            }
                        },
                    }
                },
            },
        },
    }
}

} // verus!
