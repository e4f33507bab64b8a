use imperative_compiler::bytecode::{
    ArrayRTTI, Bytecode, FunctionRecord, FunctionTable, Location, Module, PrimitiveRTTI,
    RTTIElement, RecordRTTI, TypeId, RTTI,
};
use imperative_compiler::format::{EncodeError, FormatError, Violation};

fn primitives() -> Vec<RTTIElement> {
    vec![
        RTTIElement::Primitive(PrimitiveRTTI { id: TypeId(0) }),
        RTTIElement::Primitive(PrimitiveRTTI { id: TypeId(1) }),
        RTTIElement::Primitive(PrimitiveRTTI { id: TypeId(2) }),
    ]
}

fn sample() -> Module {
    let mut rtti = primitives();
    rtti.push(RTTIElement::Record(RecordRTTI { id: TypeId(3), field_ids: vec![TypeId(0), TypeId(0)] }));
    rtti.push(RTTIElement::Array(ArrayRTTI { id: TypeId(4), element_id: TypeId(3) }));
    Module {
        global_count: 2,
        code: vec![
            Bytecode::Label { id: 7 },
            Bytecode::Enter { arguments_count: 1, local_count: 2 },
            Bytecode::IntConst { value: -5 },
            Bytecode::RealConst { bits: 2.5f64.to_bits() },
            Bytecode::Load { loc: Location::Argument(0) },
            Bytecode::JumpZero { label: 9 },
            Bytecode::Print { type_id: TypeId(3) },
            Bytecode::Label { id: 9 },
            Bytecode::Call { function_label: 7 },
            Bytecode::Ret,
        ],
        functions: FunctionTable(vec![FunctionRecord {
            name: "größe".to_string(),
            label_id: 7,
            args: vec![TypeId(4)],
            result: TypeId(0),
        }]),
        rtti: RTTI(rtti),
    }
}

#[test]
fn round_trip_of_a_module() {
    let module = sample();
    let bytes = module.encode().unwrap();
    assert_eq!(Module::decode(&bytes), Ok(module));
}

#[test]
fn header_layout_is_little_endian() {
    let module = Module {
        global_count: 0x0102_0304,
        code: vec![],
        functions: FunctionTable(vec![]),
        rtti: RTTI(vec![]),
    };
    let bytes = module.encode().unwrap();
    assert_eq!(bytes.len(), 40);
    assert_eq!(&bytes[0..4], b"IBCM");
    assert_eq!(&bytes[4..8], &[0, 0, 1, 0]);
    assert_eq!(&bytes[8..12], &[40, 0, 0, 0]);
    assert_eq!(&bytes[36..40], &[4, 3, 2, 1]);
}

#[test]
fn undefined_label_is_not_written() {
    let mut module = sample();
    module.code.push(Bytecode::Jump { label: 1000 });
    assert_eq!(module.encode(), Err(EncodeError::Invalid(Violation::UndefinedLabel)));
}

#[test]
fn bad_magic_is_rejected() {
    let mut bytes = sample().encode().unwrap();
    bytes[0] ^= 0xff;
    assert_eq!(Module::decode(&bytes), Err(FormatError::BadMagic));
}

use imperative_compiler::bytecode::{Header, MemorySpan};
use imperative_compiler::decode::{bits_to_int, read_header};
use imperative_compiler::encode::{int_to_bits, Encodable};
use imperative_compiler::format::{Section, HEADER_SIZE, INSTRUCTION_SIZE, MAGIC, VERSION};
use imperative_compiler::integrity::check_module;
use imperative_compiler::operators::SemanticBinaryOperator;

fn with_rtti(entries: Vec<RTTIElement>) -> Module {
    let mut rtti = primitives();
    rtti.extend(entries);
    Module { global_count: 0, code: vec![], functions: FunctionTable(vec![]), rtti: RTTI(rtti) }
}

fn rtti_offset(bytes: &[u8]) -> usize {
    u32::from_le_bytes(bytes[24..28].try_into().unwrap()) as usize
}

#[test]
fn header_of_an_encoded_module() {
    let module = sample();
    let bytes = module.encode().unwrap();
    let header = read_header(&bytes).unwrap();
    let code = 10 * INSTRUCTION_SIZE as u32;
    let functions = 4 + "größe".len() as u32 + 8 + 4 + 4 + 4;
    assert_eq!(
        header,
        Header {
            magic: MAGIC,
            version: VERSION,
            code_span: MemorySpan { offset: HEADER_SIZE as u32, length: code },
            function_table_span: MemorySpan { offset: 40 + code, length: functions },
            rtti_span: MemorySpan { offset: 40 + code + functions, length: 3 * 5 + (9 + 8) + 9 },
            function_count: 1,
            global_count: 2,
        }
    );
    assert_eq!(bytes.len() as u32, header.rtti_span.offset + header.rtti_span.length);
    assert_eq!(header.encode(), bytes[..40].to_vec());
}

#[test]
fn jump_holds_the_offset_of_its_label() {
    let code = vec![
        Bytecode::Jump { label: 5 },
        Bytecode::Label { id: 3 },
        Bytecode::Label { id: 5 },
        Bytecode::Label { id: 5 },
    ];
    let bytes = code.encode();
    assert_eq!(bytes.len(), 4 * 17);
    assert_eq!(bytes[0], 16);
    assert_eq!(bytes[1..9], (40u64 + 2 * 17).to_le_bytes());
    assert_eq!(bytes[9..17], [0; 8]);
    assert_eq!(bytes[17], 15);
    assert_eq!(bytes[18..26], 3u64.to_le_bytes());
}

#[test]
fn every_instruction_comes_back() {
    let code = vec![
        Bytecode::Label { id: 0 },
        Bytecode::Enter { arguments_count: 0, local_count: 3 },
        Bytecode::IntConst { value: i64::MIN },
        Bytecode::IntConst { value: i64::MAX },
        Bytecode::IntConst { value: -1 },
        Bytecode::RealConst { bits: f64::NAN.to_bits() },
        Bytecode::Load { loc: Location::Global(usize::MAX) },
        Bytecode::Store { loc: Location::Local(7) },
        Bytecode::AddressOf { loc: Location::Argument(0) },
        Bytecode::Dup,
        Bytecode::Drop,
        Bytecode::BinOp { op: SemanticBinaryOperator::RealAdd },
        Bytecode::BinOp { op: SemanticBinaryOperator::IntNeq },
        Bytecode::BinOp { op: SemanticBinaryOperator::BoolOr },
        Bytecode::StoreAddress,
        Bytecode::LoadAddress,
        Bytecode::AllocRecord { size: 16 },
        Bytecode::AllocArray { element_size: 8, size: u64::MAX },
        Bytecode::ArraySize,
        Bytecode::GetIndex,
        Bytecode::GetField { field_offset: 8 },
        Bytecode::Jump { label: 0 },
        Bytecode::JumpZero { label: 0 },
        Bytecode::JumpNotZero { label: 0 },
        Bytecode::Ret,
        Bytecode::Call { function_label: 0 },
        Bytecode::Print { type_id: TypeId(2) },
        Bytecode::Panic { code: 3 },
        Bytecode::IntToBool,
        Bytecode::RealToInt,
        Bytecode::IntToReal,
    ];
    let module = Module {
        global_count: 0,
        code,
        functions: FunctionTable(vec![]),
        rtti: RTTI(primitives()),
    };
    let bytes = module.encode().unwrap();
    assert_eq!(Module::decode(&bytes), Ok(module));
}

#[test]
fn signed_numbers_as_bits() {
    for value in [0, 1, -1, 42, i64::MIN, i64::MAX] {
        assert_eq!(int_to_bits(value), value as u64);
        assert_eq!(bits_to_int(value as u64), value);
    }
}

#[test]
fn violations_stop_the_encoder() {
    let misplaced = with_rtti(vec![RTTIElement::Array(ArrayRTTI { id: TypeId(7), element_id: TypeId(0) })]);
    assert_eq!(check_module(&misplaced), Some(Violation::MisplacedTypeId));
    assert_eq!(misplaced.encode(), Err(EncodeError::Invalid(Violation::MisplacedTypeId)));

    let late_primitive = with_rtti(vec![RTTIElement::Primitive(PrimitiveRTTI { id: TypeId(3) })]);
    assert_eq!(late_primitive.encode(), Err(EncodeError::Invalid(Violation::MisplacedTypeId)));

    let dangling = with_rtti(vec![RTTIElement::Array(ArrayRTTI { id: TypeId(3), element_id: TypeId(4) })]);
    assert_eq!(dangling.encode(), Err(EncodeError::Invalid(Violation::DanglingTypeId)));

    let mut print = sample();
    print.code.push(Bytecode::Print { type_id: TypeId(5) });
    assert_eq!(print.encode(), Err(EncodeError::Invalid(Violation::DanglingTypeId)));

    let mut signature = sample();
    signature.functions.0[0].result = TypeId(9);
    assert_eq!(signature.encode(), Err(EncodeError::Invalid(Violation::DanglingTypeId)));

    let mut arity = sample();
    arity.functions.0[0].args.push(TypeId(0));
    assert_eq!(arity.encode(), Err(EncodeError::Invalid(Violation::BadFunctionEntry)));

    let mut negative = sample();
    negative.functions.0[0].label_id = -7;
    assert_eq!(negative.encode(), Err(EncodeError::Invalid(Violation::BadFunctionEntry)));

    let mut no_enter = sample();
    no_enter.functions.0[0].label_id = 9;
    assert_eq!(no_enter.encode(), Err(EncodeError::Invalid(Violation::BadFunctionEntry)));

    assert_eq!(check_module(&sample()), None);
}

#[test]
fn dangling_type_id_is_rejected_by_the_decoder() {
    let module = with_rtti(vec![
        RTTIElement::Record(RecordRTTI { id: TypeId(3), field_ids: vec![TypeId(0), TypeId(4)] }),
        RTTIElement::Array(ArrayRTTI { id: TypeId(4), element_id: TypeId(3) }),
    ]);
    let bytes = module.encode().unwrap();
    let rtti = rtti_offset(&bytes);
    let record = rtti + 3 * 5;

    let mut field = bytes.clone();
    field[record + 9 + 4] = 5;
    assert_eq!(Module::decode(&field), Err(FormatError::Invalid(Violation::DanglingTypeId)));

    let mut element = bytes.clone();
    element[record + 17 + 5] = 5;
    assert_eq!(Module::decode(&element), Err(FormatError::Invalid(Violation::DanglingTypeId)));

    let mut far = bytes.clone();
    far[record + 9 + 7] = 0x80;
    assert_eq!(Module::decode(&far), Err(FormatError::Invalid(Violation::DanglingTypeId)));

    let mut misplaced = bytes.clone();
    misplaced[record + 1] = 4;
    assert_eq!(Module::decode(&misplaced), Err(FormatError::Invalid(Violation::MisplacedTypeId)));

    assert_eq!(Module::decode(&bytes), Ok(module));
}

#[test]
fn header_is_checked_first() {
    let bytes = sample().encode().unwrap();
    assert_eq!(Module::decode(&bytes[..39]), Err(FormatError::Truncated));
    assert_eq!(Module::decode(&[]), Err(FormatError::Truncated));

    let mut major = bytes.clone();
    major[6] = 2;
    assert_eq!(Module::decode(&major), Err(FormatError::UnsupportedVersion));
    assert_eq!(read_header(&major), Err(FormatError::UnsupportedVersion));

    let mut minor = bytes.clone();
    minor[4] = 9;
    assert_eq!(Module::decode(&minor), Ok(sample()));

    let mut both = bytes.clone();
    both[0] = 0;
    both[6] = 2;
    assert_eq!(Module::decode(&both), Err(FormatError::BadMagic));

    let mut long = bytes.clone();
    long[28] = long[28].wrapping_add(1);
    assert_eq!(
        Module::decode(&long),
        Err(FormatError::SpanOutOfBounds { section: Section::TypeTable })
    );

    let mut inside = bytes.clone();
    inside[8] = 39;
    assert_eq!(
        Module::decode(&inside),
        Err(FormatError::SpanOutOfBounds { section: Section::Code })
    );

    let mut far = bytes.clone();
    far[19] = 1;
    far[27] = 1;
    assert_eq!(
        Module::decode(&far),
        Err(FormatError::SpanOutOfBounds { section: Section::FunctionTable })
    );
}

#[test]
fn malformed_sections_are_rejected() {
    let bytes = sample().encode().unwrap();

    let mut opcode = bytes.clone();
    opcode[40 + 17] = 27;
    assert_eq!(Module::decode(&opcode), Err(FormatError::MalformedCode { offset: 57 }));

    let mut stray = bytes.clone();
    stray[40 + 9 * 17 + 1] = 1;
    assert_eq!(Module::decode(&stray), Err(FormatError::MalformedCode { offset: 193 }));

    let mut operator = bytes.clone();
    operator[40 + 9 * 17] = 7;
    operator[40 + 9 * 17 + 1] = 24;
    assert_eq!(Module::decode(&operator), Err(FormatError::MalformedCode { offset: 193 }));

    let mut partial = bytes.clone();
    partial[12] -= 1;
    assert_eq!(Module::decode(&partial), Err(FormatError::MalformedCode { offset: 193 }));

    let mut target = bytes.clone();
    target[40 + 5 * 17 + 1] += 17;
    assert_eq!(Module::decode(&target), Err(FormatError::BadJumpTarget { offset: 125 }));

    let mut unaligned = bytes.clone();
    unaligned[40 + 5 * 17 + 1] += 1;
    assert_eq!(Module::decode(&unaligned), Err(FormatError::BadJumpTarget { offset: 125 }));

    let mut count = bytes.clone();
    count[32] = 2;
    assert_eq!(Module::decode(&count), Err(FormatError::FunctionCountMismatch));

    let functions = 40 + 10 * 17;
    let mut name = bytes.clone();
    name[functions + 4 + 2] = 0xff;
    assert_eq!(Module::decode(&name), Err(FormatError::MalformedFunctionTable { offset: 210 }));

    let mut short = bytes.clone();
    short[20] -= 1;
    assert_eq!(Module::decode(&short), Err(FormatError::MalformedFunctionTable { offset: 210 }));

    let rtti = rtti_offset(&bytes);
    let mut tag = bytes.clone();
    tag[rtti] = 3;
    assert_eq!(
        Module::decode(&tag),
        Err(FormatError::MalformedTypeTable { offset: rtti as u64 })
    );

    let mut cut = bytes.clone();
    cut[28] -= 1;
    assert_eq!(
        Module::decode(&cut),
        Err(FormatError::MalformedTypeTable { offset: rtti as u64 + 32 })
    );

    let mut entry = bytes.clone();
    entry[functions + 4 + "größe".len()] = 8;
    assert_eq!(Module::decode(&entry), Err(FormatError::Invalid(Violation::BadFunctionEntry)));
}

#[test]
fn same_module_same_bytes() {
    assert_eq!(sample().encode(), sample().encode());
    let rtti = RTTI(primitives());
    assert_eq!(rtti.encode(), vec![0, 0, 0, 0, 0, 0, 1, 0, 0, 0, 0, 2, 0, 0, 0]);
    let functions = FunctionTable(vec![FunctionRecord {
        name: "f".to_string(),
        label_id: -2,
        args: vec![TypeId(1)],
        result: TypeId(2),
    }]);
    let mut buffer = vec![9];
    functions.encode_inline(&mut buffer);
    let mut expected = vec![9, 1, 0, 0, 0, b'f'];
    expected.extend((-2i64).to_le_bytes());
    expected.extend([1, 0, 0, 0, 1, 0, 0, 0, 2, 0, 0, 0]);
    assert_eq!(buffer, expected);
}
