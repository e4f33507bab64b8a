//! The instruction set of the stack machine, the runtime type table and the
//! function table: what a compiled module is made of.

use vstd::prelude::*;
use crate::operators::SemanticBinaryOperator;

verus! {

/// Where a variable lives, and its slot number there.
#[derive(PartialEq, Eq, Structural, Debug, Clone, Copy)]
pub enum Location {
    Global(usize),
    Local(usize),
    Argument(usize),
}

/// The number of a type in a module's runtime type table.
#[derive(PartialEq, Eq, Structural, Hash, Debug, Clone, Copy)]
pub struct TypeId(pub u32);

/// An instruction of the stack machine.
#[derive(PartialEq, Eq, Structural, Debug, Clone, Copy)]
pub enum Bytecode {
    /// Pushes an integer or a boolean.
    IntConst { value: i64 },
    /// Pushes a real, given by the bit pattern of the double.
    RealConst { bits: u64 },
    /// Pushes the variable's value.
    Load { loc: Location },
    /// Pops a value into the variable.
    Store { loc: Location },
    /// Pushes the variable's address.
    AddressOf { loc: Location },
    /// Duplicates the top of the stack.
    Dup,
    /// Drops the top of the stack.
    Drop,
    /// Pops the right operand, then the left one, and pushes the result.
    BinOp { op: SemanticBinaryOperator },
    /// Pops a value and an address, and writes the value there.
    StoreAddress,
    /// Pops an address and pushes the value found there.
    LoadAddress,
    /// Allocates a record of `size` bytes and pushes a reference to it.
    AllocRecord { size: u64 },
    /// Allocates an array of `size` elements and pushes a reference to it.
    AllocArray { element_size: u64, size: u64 },
    /// Pops an array reference and pushes the array's length.
    ArraySize,
    /// Pops an index and an array reference and pushes the element.
    GetIndex,
    /// Pops a record reference and pushes the field at the byte offset.
    GetField { field_offset: u64 },
    /// Does nothing; marks the place that jumps and calls name.
    Label { id: u64 },
    Jump { label: u64 },
    /// Pops a value and jumps if it is zero.
    JumpZero { label: u64 },
    /// Pops a value and jumps if it is not zero.
    JumpNotZero { label: u64 },
    /// Sets up the frame of a function.
    Enter { arguments_count: u64, local_count: u64 },
    /// Leaves the function; the top of the stack is what it returns.
    Ret,
    Call { function_label: u64 },
    /// Pops a value and prints it as the type table describes the type.
    Print { type_id: TypeId },
    /// Ends the program with the code.
    Panic { code: u64 },
    IntToBool,
    RealToInt,
    IntToReal,
}

/// The runtime description of a record type: its own number and the
/// numbers of the types of its fields, in their order.
#[derive(PartialEq, Eq, Debug, Clone)]
pub struct RecordRTTI {
    pub id: TypeId,
    pub field_ids: Vec<TypeId>,
}

/// The runtime description of an array type: its own number and the
/// number of the type of its elements. The length belongs to each array.
#[derive(PartialEq, Eq, Structural, Debug, Clone, Copy)]
pub struct ArrayRTTI {
    pub id: TypeId,
    pub element_id: TypeId,
}

/// The runtime description of a primitive type: 0 for integers, 1 for
/// reals, 2 for booleans.
#[derive(PartialEq, Eq, Structural, Debug, Clone, Copy)]
pub struct PrimitiveRTTI {
    pub id: TypeId,
}

/// An entry of the runtime type table.
#[derive(PartialEq, Eq, Debug, Clone)]
pub enum RTTIElement {
    Record(RecordRTTI),
    Array(ArrayRTTI),
    Primitive(PrimitiveRTTI),
}

/// The runtime type table: the entry at position `i` describes type `i`.
#[derive(PartialEq, Eq, Debug, Clone)]
pub struct RTTI(pub Vec<RTTIElement>);

/// An entry of the function table: a routine's name, the label at which
/// its code starts, and the numbers of the types of its arguments and of
/// its result.
#[derive(PartialEq, Eq, Debug, Clone)]
pub struct FunctionRecord {
    pub name: String,
    pub label_id: i64,
    pub args: Vec<TypeId>,
    pub result: TypeId,
}

/// The routines of a module, in the order of their declaration.
#[derive(PartialEq, Eq, Debug, Clone)]
pub struct FunctionTable(pub Vec<FunctionRecord>);

/// A stretch of bytes in an encoded module, counted from the module's start.
#[derive(PartialEq, Eq, Structural, Debug, Clone, Copy)]
pub struct MemorySpan {
    pub offset: u32,
    pub length: u32,
}

/// The header of an encoded module.
#[derive(PartialEq, Eq, Structural, Debug, Clone, Copy)]
pub struct Header {
    pub magic: u32,
    pub version: u32,
    pub code_span: MemorySpan,
    pub function_table_span: MemorySpan,
    pub rtti_span: MemorySpan,
    pub function_count: u32,
    pub global_count: u32,
}

/// A compiled module before it is encoded.
#[derive(PartialEq, Eq, Debug, Clone)]
pub struct Module {
    /// How many global slots the host has to provide.
    pub global_count: u32,
    pub code: Vec<Bytecode>,
    pub functions: FunctionTable,
    pub rtti: RTTI,
}

/// An entry of the type table as a mathematical value.
pub enum RttiView {
    Record { id: TypeId, field_ids: Seq<TypeId> },
    Array { id: TypeId, element_id: TypeId },
    Primitive { id: TypeId },
}

impl RttiView {
    /// The number that the entry gives itself.
    pub open spec fn id(self) -> TypeId {
        match self {
            RttiView::Record { id, .. } => id,
            RttiView::Array { id, .. } => id,
            RttiView::Primitive { id } => id,
        }
    }
}

impl View for RTTIElement {
    type V = RttiView;

    open spec fn view(&self) -> RttiView {
        match self {
            RTTIElement::Record(record) => RttiView::Record {
                id: record.id,
                field_ids: record.field_ids@,
            },
            RTTIElement::Array(array) => RttiView::Array {
                id: array.id,
                element_id: array.element_id,
            },
            RTTIElement::Primitive(primitive) => RttiView::Primitive { id: primitive.id },
        }
    }
}

impl View for RTTI {
    type V = Seq<RttiView>;

    open spec fn view(&self) -> Seq<RttiView> {
        self.0@.map_values(|element: RTTIElement| element@)
    }
}

/// An entry of the function table as a mathematical value.
pub struct FunctionView {
    pub name: Seq<char>,
    pub label_id: i64,
    pub args: Seq<TypeId>,
    pub result: TypeId,
}

impl View for FunctionRecord {
    type V = FunctionView;

    open spec fn view(&self) -> FunctionView {
        FunctionView {
            name: self.name@,
            label_id: self.label_id,
            args: self.args@,
            result: self.result,
        }
    }
}

impl View for FunctionTable {
    type V = Seq<FunctionView>;

    open spec fn view(&self) -> Seq<FunctionView> {
        self.0@.map_values(|record: FunctionRecord| record@)
    }
}

/// A module as a mathematical value.
pub struct ModuleView {
    pub global_count: u32,
    pub code: Seq<Bytecode>,
    pub functions: Seq<FunctionView>,
    pub rtti: Seq<RttiView>,
}

impl View for Module {
    type V = ModuleView;

    open spec fn view(&self) -> ModuleView {
        ModuleView {
            global_count: self.global_count,
            code: self.code@,
            functions: self.functions@,
            rtti: self.rtti@,
        }
    }
}

} // verus!
