//! What holds of writing and reading together.

use vstd::prelude::*;
use vstd::bytes::{
    lemma_auto_spec_u32_to_from_le_bytes, lemma_auto_spec_u64_to_from_le_bytes,
    spec_u32_to_le_bytes, spec_u64_to_le_bytes,
};
use crate::bytecode::{Bytecode, FunctionView, Header, ModuleView, RttiView, TypeId};
use crate::encode::{code_fits, lemma_code_bytes_len};
use crate::format::{
    chunk, code_bytes, decode_code, decode_header, decode_module, encodable, fields, fields_bytes,
    function_bytes, functions_bytes, header_bytes, header_of, id_at, ids_bytes, ids_valid, int_bits,
    jump_target, labels_defined, lemma_fields_bytes, module_bytes, parse_function, parse_functions,
    parse_header, parse_rtti, parse_rtti_entry, raw_at, raws_of, read_ids, read_u32, read_u64,
    resolved, rtti_bytes, rtti_entry_bytes, rtti_in_place, section, unresolved, violation,
    FormatError, HEADER_SIZE,
};
use crate::integrity::lemma_first_label;

verus! {

/// A header is read back from the bytes it was written as, whatever
/// follows them.
pub proof fn lemma_header_round_trip(header: Header, rest: Seq<u8>)
    ensures
        header_bytes(header).len() == HEADER_SIZE,
        parse_header(header_bytes(header) + rest) == header,
{
    lemma_auto_spec_u32_to_from_le_bytes();
    let bytes = header_bytes(header) + rest;
    assert(bytes.subrange(0, 4) =~= spec_u32_to_le_bytes(header.magic));
    assert(bytes.subrange(4, 8) =~= spec_u32_to_le_bytes(header.version));
    assert(bytes.subrange(8, 12) =~= spec_u32_to_le_bytes(header.code_span.offset));
    assert(bytes.subrange(12, 16) =~= spec_u32_to_le_bytes(header.code_span.length));
    assert(bytes.subrange(16, 20) =~= spec_u32_to_le_bytes(header.function_table_span.offset));
    assert(bytes.subrange(20, 24) =~= spec_u32_to_le_bytes(header.function_table_span.length));
    assert(bytes.subrange(24, 28) =~= spec_u32_to_le_bytes(header.rtti_span.offset));
    assert(bytes.subrange(28, 32) =~= spec_u32_to_le_bytes(header.rtti_span.length));
    assert(bytes.subrange(32, 36) =~= spec_u32_to_le_bytes(header.function_count));
    assert(bytes.subrange(36, 40) =~= spec_u32_to_le_bytes(header.global_count));
}

proof fn lemma_code_chunk(code: Seq<Bytecode>, n: int, i: int)
    requires
        0 <= i < n <= code.len(),
    ensures
        chunk(code_bytes(code, n), i) == fields_bytes(fields(resolved(code[i], code))),
    decreases n,
{
    lemma_fields_bytes(fields(resolved(code[n - 1], code)));
    lemma_code_bytes_len(code, n - 1);
    if i < n - 1 {
        lemma_code_chunk(code, n - 1, i);
    }
}

/// Code whose labels are all defined is read back from the bytes it was
/// written as.
pub proof fn lemma_code_round_trip(code: Seq<Bytecode>)
    requires
        labels_defined(code),
        code_fits(code),
    ensures
        decode_code(code_bytes(code, code.len() as int), HEADER_SIZE as int) == Ok::<
            Seq<Bytecode>,
            FormatError,
        >(code),
{
    let n = code.len() as int;
    let bytes = code_bytes(code, n);
    let base = HEADER_SIZE as int;
    lemma_code_bytes_len(code, n);
    assert forall|i: int| 0 <= i < n implies (#[trigger] raw_at(bytes, i)) == Some(
        resolved(code[i], code),
    ) by {
        lemma_code_chunk(code, n, i);
        lemma_fields_bytes(fields(resolved(code[i], code)));
    }
    let raws = raws_of(bytes);
    assert forall|i: int| 0 <= i < n implies (#[trigger] unresolved(raws[i], raws, base)) == Some(
        code[i],
    ) by {
        if let Some(label) = jump_target(code[i]) {
            lemma_first_label(code, label, n);
        }
    }
    assert(Seq::new(n as nat, |i: int| unresolved(raws[i], raws, base)->0) =~= code);
}

proof fn lemma_ids_bytes(ids: Seq<TypeId>, n: int, i: int)
    requires
        0 <= i < n <= ids.len(),
    ensures
        ids_bytes(ids, n).len() == 4 * n,
        ids_bytes(ids, n).subrange(4 * i, 4 * i + 4) == spec_u32_to_le_bytes(ids[i].0),
    decreases n,
{
    lemma_auto_spec_u32_to_from_le_bytes();
    lemma_ids_bytes_len(ids, n - 1);
    if i < n - 1 {
        lemma_ids_bytes(ids, n - 1, i);
    }
}

proof fn lemma_ids_bytes_len(ids: Seq<TypeId>, n: int)
    requires
        0 <= n <= ids.len(),
    ensures
        ids_bytes(ids, n).len() == 4 * n,
    decreases n,
{
    lemma_auto_spec_u32_to_from_le_bytes();
    if n > 0 {
        lemma_ids_bytes_len(ids, n - 1);
    }
}

/// A list of type numbers is read back from where it was written.
proof fn lemma_read_ids(bytes: Seq<u8>, pos: int, ids: Seq<TypeId>)
    requires
        0 <= pos,
        pos + 4 * ids.len() <= bytes.len(),
        bytes.subrange(pos, pos + 4 * ids.len()) == ids_bytes(ids, ids.len() as int),
    ensures
        read_ids(bytes, pos, ids.len() as int) == Some(ids),
{
    lemma_auto_spec_u32_to_from_le_bytes();
    let n = ids.len() as int;
    let found = Seq::new(n as nat, |i: int| id_at(bytes, pos, i));
    assert forall|i: int| 0 <= i < n implies found[i] == ids[i] by {
        lemma_ids_bytes(ids, n, i);
        assert(bytes.subrange(pos + 4 * i, pos + 4 * i + 4) =~= bytes.subrange(
            pos,
            pos + 4 * n,
        ).subrange(4 * i, 4 * i + 4));
    }
}

proof fn lemma_read_u32(bytes: Seq<u8>, pos: int, value: u32)
    requires
        0 <= pos,
        pos + 4 <= bytes.len(),
        bytes.subrange(pos, pos + 4) == spec_u32_to_le_bytes(value),
    ensures
        read_u32(bytes, pos) == Some(value),
{
    lemma_auto_spec_u32_to_from_le_bytes();
    assert(spec_u32_to_le_bytes(value).len() == 4);
}

proof fn lemma_read_u64(bytes: Seq<u8>, pos: int, value: u64)
    requires
        0 <= pos,
        pos + 8 <= bytes.len(),
        bytes.subrange(pos, pos + 8) == spec_u64_to_le_bytes(value),
    ensures
        read_u64(bytes, pos) == Some(value),
{
    lemma_auto_spec_u64_to_from_le_bytes();
}

/// How many bytes an entry of the type table takes.
pub open spec fn rtti_entry_size(entry: RttiView) -> int {
    match entry {
        RttiView::Primitive { .. } => 5,
        RttiView::Record { field_ids, .. } => 9 + 4 * (field_ids.len() as int),
        RttiView::Array { .. } => 9,
    }
}

proof fn lemma_rtti_entry_size(entry: RttiView)
    ensures
        rtti_entry_bytes(entry).len() == rtti_entry_size(entry),
{
    lemma_auto_spec_u32_to_from_le_bytes();
    match entry {
        RttiView::Record { field_ids, .. } => {
            lemma_ids_bytes_len(field_ids, field_ids.len() as int);
        },
        _ => {},
    }
}

/// An entry is read back from where it was written.
proof fn lemma_rtti_entry_round_trip(bytes: Seq<u8>, pos: int, entry: RttiView)
    requires
        0 <= pos,
        pos + rtti_entry_size(entry) <= bytes.len(),
        bytes.subrange(pos, pos + rtti_entry_size(entry)) == rtti_entry_bytes(entry),
        rtti_entry_size(entry) <= u32::MAX,
    ensures
        parse_rtti_entry(bytes, pos) == Some((entry, pos + rtti_entry_size(entry))),
{
    lemma_auto_spec_u32_to_from_le_bytes();
    let size = rtti_entry_size(entry);
    let piece = bytes.subrange(pos, pos + size);
    assert(bytes[pos] == piece[0]);
    assert(bytes.subrange(pos + 1, pos + 5) =~= piece.subrange(1, 5));
    match entry {
        RttiView::Primitive { id } => {
            assert(piece.subrange(1, 5) =~= spec_u32_to_le_bytes(id.0));
        },
        RttiView::Array { id, element_id } => {
            assert(piece.subrange(1, 5) =~= spec_u32_to_le_bytes(id.0));
            assert(bytes.subrange(pos + 5, pos + 9) =~= piece.subrange(5, 9));
            assert(piece.subrange(5, 9) =~= spec_u32_to_le_bytes(element_id.0));
        },
        RttiView::Record { id, field_ids } => {
            let count = field_ids.len() as u32;
            assert(piece.subrange(1, 5) =~= spec_u32_to_le_bytes(id.0));
            lemma_read_u32(bytes, pos + 1, id.0);
            assert(bytes.subrange(pos + 5, pos + 9) =~= piece.subrange(5, 9));
            assert(piece.subrange(5, 9) =~= spec_u32_to_le_bytes(count));
            assert(bytes.subrange(pos + 9, pos + 9 + 4 * field_ids.len()) =~= piece.subrange(
                9,
                size,
            ));
            assert(piece.subrange(9, size) =~= ids_bytes(field_ids, field_ids.len() as int));
            lemma_read_ids(bytes, pos + 9, field_ids);
        },
    }
}

/// The bytes of the first `k` entries stand at the start of the bytes of
/// the first `n`, and entry `k` follows them.
proof fn lemma_rtti_bytes_prefix(rtti: Seq<RttiView>, k: int, n: int)
    requires
        0 <= k < n <= rtti.len(),
    ensures
        rtti_bytes(rtti, k).len() + rtti_entry_size(rtti[k]) <= rtti_bytes(rtti, n).len(),
        rtti_bytes(rtti, n).subrange(
            rtti_bytes(rtti, k).len() as int,
            rtti_bytes(rtti, k).len() + rtti_entry_size(rtti[k]),
        ) == rtti_entry_bytes(rtti[k]),
    decreases n,
{
    lemma_rtti_entry_size(rtti[k]);
    if k < n - 1 {
        lemma_rtti_bytes_prefix(rtti, k, n - 1);
    }
}

proof fn lemma_parse_rtti_from(rtti: Seq<RttiView>, k: int)
    requires
        0 <= k <= rtti.len(),
        rtti_bytes(rtti, rtti.len() as int).len() <= u32::MAX,
    ensures
        parse_rtti(rtti_bytes(rtti, rtti.len() as int), rtti_bytes(rtti, k).len() as int) == Some(
            rtti.subrange(k, rtti.len() as int),
        ),
    decreases rtti.len() - k,
{
    let n = rtti.len() as int;
    let bytes = rtti_bytes(rtti, n);
    let pos = rtti_bytes(rtti, k).len() as int;
    if k < n {
        lemma_rtti_bytes_prefix(rtti, k, n);
        lemma_rtti_entry_round_trip(bytes, pos, rtti[k]);
        lemma_parse_rtti_from(rtti, k + 1);
    }
}

/// A type table is read back from the bytes it was written as.
pub proof fn lemma_rtti_round_trip(rtti: Seq<RttiView>)
    requires
        rtti_bytes(rtti, rtti.len() as int).len() <= u32::MAX,
    ensures
        parse_rtti(rtti_bytes(rtti, rtti.len() as int), 0) == Some(rtti),
{
    lemma_parse_rtti_from(rtti, 0);
}

/// How many bytes a function takes in the function table.
pub open spec fn function_size(function: FunctionView) -> int {
    20 + (vstd::utf8::encode_utf8(function.name).len() as int) + 4 * (function.args.len() as int)
}

proof fn lemma_function_size(function: FunctionView)
    ensures
        function_bytes(function).len() == function_size(function),
{
    lemma_auto_spec_u32_to_from_le_bytes();
    lemma_auto_spec_u64_to_from_le_bytes();
    lemma_ids_bytes_len(function.args, function.args.len() as int);
}

/// A function is read back from where it was written.
proof fn lemma_function_round_trip(bytes: Seq<u8>, pos: int, function: FunctionView)
    requires
        0 <= pos,
        pos + function_size(function) <= bytes.len(),
        bytes.subrange(pos, pos + function_size(function)) == function_bytes(function),
        function_size(function) <= u32::MAX,
    ensures
        parse_function(bytes, pos) == Some((function, pos + function_size(function))),
{
    lemma_auto_spec_u32_to_from_le_bytes();
    lemma_function_size(function);
    lemma_ids_bytes_len(function.args, function.args.len() as int);
    vstd::utf8::encode_utf8_valid_utf8(function.name);
    vstd::utf8::encode_utf8_decode_utf8(function.name);
    let size = function_size(function);
    let piece = bytes.subrange(pos, pos + size);
    let name = vstd::utf8::encode_utf8(function.name);
    let name_length = name.len() as u32;
    let count = function.args.len() as u32;
    let name_end: int = pos + 4 + (name.len() as int);
    let local_end: int = 4 + (name.len() as int);

    assert(bytes.subrange(pos, pos + 4) =~= piece.subrange(0, 4));
    assert(piece.subrange(0, 4) =~= spec_u32_to_le_bytes(name_length));

    assert(bytes.subrange(pos + 4, name_end) =~= piece.subrange(4, local_end));
    assert(piece.subrange(4, local_end) =~= name);

    assert(bytes.subrange(name_end, name_end + 8) =~= piece.subrange(local_end, local_end + 8));
    assert(piece.subrange(local_end, local_end + 8) =~= spec_u64_to_le_bytes(
        int_bits(function.label_id),
    ));
    lemma_read_u64(bytes, name_end, int_bits(function.label_id));

    assert(bytes.subrange(name_end + 8, name_end + 12) =~= piece.subrange(
        local_end + 8,
        local_end + 12,
    ));
    assert(piece.subrange(local_end + 8, local_end + 12) =~= spec_u32_to_le_bytes(count));

    let args_size = 4 * function.args.len();
    assert(bytes.subrange(name_end + 12, name_end + 12 + args_size) =~= piece.subrange(
        local_end + 12,
        local_end + 12 + args_size,
    ));
    assert(piece.subrange(local_end + 12, local_end + 12 + 4 * function.args.len()) =~= ids_bytes(
        function.args,
        function.args.len() as int,
    ));
    lemma_read_ids(bytes, name_end + 12, function.args);

    assert(bytes.subrange(name_end + 12 + 4 * count, name_end + 16 + 4 * count) =~= piece.subrange(
        local_end + 12 + 4 * count,
        size,
    ));
    assert(piece.subrange(local_end + 12 + 4 * count, size) =~= spec_u32_to_le_bytes(
        function.result.0,
    ));
}

proof fn lemma_functions_bytes_prefix(functions: Seq<FunctionView>, k: int, n: int)
    requires
        0 <= k < n <= functions.len(),
    ensures
        functions_bytes(functions, k).len() + function_size(functions[k]) <= functions_bytes(
            functions,
            n,
        ).len(),
        functions_bytes(functions, n).subrange(
            functions_bytes(functions, k).len() as int,
            functions_bytes(functions, k).len() + function_size(functions[k]),
        ) == function_bytes(functions[k]),
    decreases n,
{
    lemma_function_size(functions[k]);
    if k < n - 1 {
        lemma_functions_bytes_prefix(functions, k, n - 1);
    }
}

proof fn lemma_parse_functions_from(functions: Seq<FunctionView>, k: int)
    requires
        0 <= k <= functions.len(),
        functions_bytes(functions, functions.len() as int).len() <= u32::MAX,
    ensures
        parse_functions(
            functions_bytes(functions, functions.len() as int),
            functions_bytes(functions, k).len() as int,
        ) == Some(functions.subrange(k, functions.len() as int)),
    decreases functions.len() - k,
{
    let n = functions.len() as int;
    let bytes = functions_bytes(functions, n);
    let pos = functions_bytes(functions, k).len() as int;
    if k < n {
        lemma_functions_bytes_prefix(functions, k, n);
        lemma_function_round_trip(bytes, pos, functions[k]);
        lemma_parse_functions_from(functions, k + 1);
    }
}

/// A function table is read back from the bytes it was written as.
pub proof fn lemma_functions_round_trip(functions: Seq<FunctionView>)
    requires
        functions_bytes(functions, functions.len() as int).len() <= u32::MAX,
    ensures
        parse_functions(functions_bytes(functions, functions.len() as int), 0) == Some(functions),
{
    lemma_parse_functions_from(functions, 0);
}

/// A function table takes at least 20 bytes for each function.
proof fn lemma_functions_count(functions: Seq<FunctionView>, n: int)
    requires
        0 <= n <= functions.len(),
    ensures
        functions_bytes(functions, n).len() >= 20 * n,
    decreases n,
{
    if n > 0 {
        lemma_functions_count(functions, n - 1);
        lemma_function_size(functions[n - 1]);
    }
}

/// Reading what was written gives back the module: for every module that
/// passes the checks and is not too large, the bytes it is written as are
/// accepted, and they stand for that module, header and sections alike.
pub proof fn lemma_round_trip(module: ModuleView)
    requires
        encodable(module),
    ensures
        decode_module(module_bytes(module)) == Ok::<ModuleView, FormatError>(module),
        decode_header(module_bytes(module)) == Ok::<Header, FormatError>(header_of(module)),
{
    let header = header_of(module);
    let code = code_bytes(module.code, module.code.len() as int);
    let functions = functions_bytes(module.functions, module.functions.len() as int);
    let rtti = rtti_bytes(module.rtti, module.rtti.len() as int);
    let bytes = module_bytes(module);
    lemma_code_bytes_len(module.code, module.code.len() as int);
    lemma_functions_count(module.functions, module.functions.len() as int);
    assert(bytes =~= header_bytes(header) + (code + functions + rtti));
    lemma_header_round_trip(header, code + functions + rtti);
    assert(section(bytes, header.code_span) =~= code);
    assert(section(bytes, header.function_table_span) =~= functions);
    assert(section(bytes, header.rtti_span) =~= rtti);
    lemma_code_round_trip(module.code);
    lemma_functions_round_trip(module.functions);
    lemma_rtti_round_trip(module.rtti);
}

/// Nothing that is read has a dangling type number: whatever the bytes,
/// in a module that is accepted every number in a record's fields, in an
/// array's element, in a function's signature and in a `Print` is below
/// the length of the module's type table, and every entry of the table
/// stands at the place of its own number.
pub proof fn lemma_decoded_ids_valid(bytes: Seq<u8>)
    ensures
        match decode_module(bytes) {
            Ok(module) => rtti_in_place(module.rtti) && ids_valid(module) && violation(module)
                is None,
            Err(_) => true,
        },
{
}

/// A module with a dangling type number in its type table is what no
/// bytes stand for.
pub proof fn lemma_dangling_rejected(bytes: Seq<u8>, module: ModuleView, i: int)
    requires
        0 <= i < module.rtti.len(),
        !crate::format::entry_ids_valid(module.rtti[i], module.rtti.len() as int),
    ensures
        decode_module(bytes) != Ok::<ModuleView, FormatError>(module),
{
}

/// Writing is a function of the module: modules that are equal as values
/// are written as the same bytes.
pub proof fn lemma_encoding_deterministic(first: ModuleView, second: ModuleView)
    requires
        first == second,
    ensures
        module_bytes(first) == module_bytes(second),
        encodable(first) == encodable(second),
{
}

} // verus!
