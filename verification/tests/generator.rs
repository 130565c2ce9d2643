//! The parts of the generator, one by one.
use std::collections::HashMap;
use std::rc::Rc;

use clar2wasm::analysis::{
    CharType, ClarityVersion, ContractAnalysis, ContractName, PrincipalData, Printed, SequenceData,
    StandardPrincipalData, SymbolicExpression, SymbolicExpressionType, Value,
};
use clar2wasm::builder::InstrSeqBuilder;
use clar2wasm::clarity_vm::NativeVariables;
use clar2wasm::error::GeneratorError;
use clar2wasm::generator::{WasmGenerator, END_OF_STANDARD_DATA};
use clar2wasm::ir::WasmType;
use clar2wasm::layout::{
    add_placeholder_for_clarity_type, add_placeholder_for_type, drop_value, SequenceElementType,
};
use clar2wasm::literal_table::{LiteralMemoryEntry, LiteralTable};
use clar2wasm::program::FunctionKind;
use clar2wasm::types::{
    FixedFunction, FunctionArg, FunctionType, ListTypeData, SequenceSubtype, StringSubtype,
    TypeSignature,
};
use clar2wasm::words::NoWords;
use walrus::ir::{Instr, Value as WasmValue};
use walrus::{FunctionBuilder, InitExpr, Module, ValType};

/// A library with the given functions, which do nothing.
fn library(functions: &[&str], has_memory: bool) -> Vec<u8> {
    let mut module = Module::default();
    for name in functions {
        let mut function = FunctionBuilder::new(&mut module.types, &[], &[]);
        function.name((*name).to_owned());
        function.finish(vec![], &mut module.funcs);
    }
    if has_memory {
        module.memories.add_local(false, 1, None);
    }
    for _ in 0..2 {
        let init = InitExpr::Value(WasmValue::I32(0));
        module.globals.add_local(ValType::I32, true, init);
    }
    module.emit_wasm()
}

/// A section that names the second global.
fn global_name(name: &str) -> Vec<u8> {
    let mut names = vec![1, 1, name.len() as u8];
    names.extend(name.as_bytes());
    let mut content = b"\x04name".to_vec();
    content.extend([7, names.len() as u8]);
    content.extend(names);
    let mut section = vec![0, content.len() as u8];
    section.extend(content);
    section
}

fn standard_library(functions: &[&str], has_memory: bool) -> Vec<u8> {
    let mut wasm = library(functions, has_memory);
    wasm.extend(global_name("stack-pointer"));
    wasm
}

fn empty_contract() -> ContractAnalysis {
    ContractAnalysis::new(vec![], Some(HashMap::new()), ClarityVersion::Clarity2)
}

fn generator_with(functions: &[&str]) -> WasmGenerator {
    WasmGenerator::new(empty_contract(), &standard_library(functions, true)).unwrap()
}

fn generator() -> WasmGenerator {
    generator_with(&[])
}

fn generator_without_memory() -> WasmGenerator {
    WasmGenerator::new(empty_contract(), &standard_library(&[], false)).unwrap()
}

fn builder(generator: &mut WasmGenerator) -> InstrSeqBuilder {
    InstrSeqBuilder::new(FunctionBuilder::new(&mut generator.module.types, &[], &[]))
}

fn instrs(builder: &mut InstrSeqBuilder) -> Vec<Instr> {
    let seq = builder.seq;
    builder.func.instr_seq(seq).instrs().iter().map(|(instr, _)| instr.clone()).collect()
}

fn expression(expr: SymbolicExpressionType, id: u64) -> SymbolicExpression {
    let printed = format!("{expr:?}");
    SymbolicExpression { expr, id, printed }
}

fn atom(name: &str) -> SymbolicExpression {
    expression(SymbolicExpressionType::Atom(name.to_owned()), 77)
}

fn literal(value: Value) -> SymbolicExpression {
    expression(SymbolicExpressionType::LiteralValue(value), 78)
}

fn ascii(text: &str) -> CharType {
    CharType::ASCII(text.as_bytes().to_vec())
}

fn utf8(text: &str) -> CharType {
    CharType::UTF8(text.chars().map(|c| c.to_string().into_bytes()).collect())
}

fn printed(text: &str) -> Printed {
    Printed { text: text.to_owned() }
}

fn segments(generator: &WasmGenerator) -> Vec<(u32, Vec<u8>)> {
    generator
        .module
        .data
        .iter()
        .map(|data| match &data.kind {
            walrus::DataKind::Active(active) => match active.location {
                walrus::ActiveDataLocation::Absolute(offset) => (offset, data.value.clone()),
                _ => panic!("relative segment"),
            },
            _ => panic!("passive segment"),
        })
        .collect()
}

fn message<T>(result: Result<T, GeneratorError>) -> String {
    match result {
        Ok(_) => panic!("no error"),
        Err(error) => error.message(),
    }
}

#[test]
fn bytes_that_are_no_module_are_refused() {
    assert_eq!(
        message(WasmGenerator::new(empty_contract(), b"no module")),
        "Internal error: failed to load standard library",
    );
}

#[test]
fn library_without_stack_pointer_is_refused() {
    let mut wasm = library(&[], true);
    wasm.extend(global_name("frame-pointer"));
    assert_eq!(
        message(WasmGenerator::new(empty_contract(), &wasm)),
        "Internal error: Expected to find a global named $stack-pointer",
    );
}

#[test]
fn generator_starts_after_the_standard_data() {
    let generator = generator();
    assert_eq!(generator.literal_memory_end, END_OF_STANDARD_DATA);
    assert_eq!(END_OF_STANDARD_DATA, 1352);
    assert_eq!(generator.frame_size, 0);
    let second = generator.module.globals.iter().nth(1).unwrap().id();
    assert_eq!(generator.stack_pointer, second);
}

#[test]
fn empty_contract_becomes_an_empty_function() {
    let module = generator().generate(&NoWords).unwrap();
    let export = module.exports.iter().find(|export| export.name == ".top-level").unwrap();
    let function = match export.item {
        walrus::ExportItem::Function(function) => module.funcs.get(function),
        _ => panic!("not a function"),
    };
    let ty = module.types.get(function.ty());
    assert!(ty.params().is_empty());
    assert!(ty.results().is_empty());
    let pages = module.memories.iter().next().unwrap().initial;
    assert_eq!(pages, 1);
}

#[test]
fn stack_pointer_starts_after_the_literals() {
    let text = Value::Sequence(SequenceData::String(ascii("four")));
    let expressions = vec![literal(text)];
    let contract =
        ContractAnalysis::new(expressions, Some(HashMap::new()), ClarityVersion::Clarity2);
    let generator = WasmGenerator::new(contract, &standard_library(&[], true)).unwrap();
    let stack_pointer = generator.stack_pointer;
    let module = generator.generate(&NoWords).unwrap();
    match &module.globals.get(stack_pointer).kind {
        walrus::GlobalKind::Local(InitExpr::Value(WasmValue::I32(value))) => {
            assert_eq!(*value, END_OF_STANDARD_DATA as i32 + 4);
        }
        other => panic!("{other:?}"),
    }
}

#[test]
fn contract_without_memory_is_refused() {
    assert_eq!(
        message(generator_without_memory().generate(&NoWords)),
        "Internal error: No Memory found",
    );
}

#[test]
fn pages_are_rounded_up() {
    let mut generator = generator();
    for (end, frame, pages) in [
        (1352, 0, 1),
        (65536, 0, 1),
        (65536, 1, 2),
        (65535, 1, 1),
        (131072, 65536, 3),
        (u32::MAX, i32::MAX, 98304),
    ] {
        generator.literal_memory_end = end;
        generator.frame_size = frame;
        generator.set_memory_pages().unwrap();
        assert_eq!(generator.module.memories.iter().next().unwrap().initial, pages);
    }
    assert_eq!(
        message(generator_without_memory().set_memory_pages()),
        "Internal error: No Memory found",
    );
}

#[test]
fn memory_is_the_first_one() {
    let generator = generator();
    let first = generator.module.memories.iter().next().unwrap().id();
    assert_eq!(generator.get_memory().unwrap(), first);
    assert_eq!(
        message(generator_without_memory().get_memory()),
        "Internal error: No memory found",
    );
}

#[test]
fn type_that_was_set_is_found() {
    let mut generator = generator();
    let expr = atom("x");
    assert!(generator.get_expr_type(&expr).is_none());
    generator.set_expr_type(&expr, Rc::new(TypeSignature::IntType)).unwrap();
    generator.set_expr_type(&expr, Rc::new(TypeSignature::BoolType)).unwrap();
    assert!(matches!(**generator.get_expr_type(&expr).unwrap(), TypeSignature::BoolType));
    let other = SymbolicExpression { id: 1, ..atom("x") };
    assert!(generator.get_expr_type(&other).is_none());
}

#[test]
fn contract_must_be_type_checked() {
    let contract = ContractAnalysis::new(vec![], None, ClarityVersion::Clarity2);
    let mut generator = WasmGenerator::new(contract, &standard_library(&[], true)).unwrap();
    assert_eq!(
        message(generator.set_expr_type(&atom("x"), Rc::new(TypeSignature::IntType))),
        "Internal error: type-checker must be called before Wasm generation",
    );
}

#[test]
fn first_function_of_a_name_is_found() {
    let generator = generator_with(&["one", "two", "two"]);
    let ids: Vec<_> = generator.module.funcs.iter().map(|function| function.id()).collect();
    assert_eq!(generator.func_by_name("one"), ids[0]);
    assert_eq!(generator.func_by_name("two"), ids[1]);
}

fn fixed(args: Vec<(&str, TypeSignature)>, returns: TypeSignature) -> FunctionType {
    let args = args
        .into_iter()
        .map(|(name, ty)| FunctionArg { name: name.to_owned(), signature: Rc::new(ty) })
        .collect();
    FunctionType::Fixed(Rc::new(FixedFunction { args, returns: Rc::new(returns) }))
}

fn result_type(ty: Option<&FunctionType>) -> Option<&TypeSignature> {
    match ty {
        Some(FunctionType::Fixed(function)) => Some(&*function.returns),
        _ => None,
    }
}

#[test]
fn public_function_goes_before_the_others() {
    let mut generator = generator();
    let contract = &mut generator.contract_analysis;
    contract.add_private_function("f".to_owned(), fixed(vec![], TypeSignature::IntType));
    contract.add_private_function("g".to_owned(), fixed(vec![], TypeSignature::IntType));
    contract.add_private_function("h".to_owned(), fixed(vec![], TypeSignature::IntType));
    contract.add_read_only_function("f".to_owned(), fixed(vec![], TypeSignature::UIntType));
    contract.add_read_only_function("g".to_owned(), fixed(vec![], TypeSignature::UIntType));
    contract.add_public_function("f".to_owned(), fixed(vec![], TypeSignature::BoolType));
    assert!(matches!(result_type(generator.get_function_type("f")), Some(TypeSignature::BoolType)));
    assert!(matches!(result_type(generator.get_function_type("g")), Some(TypeSignature::UIntType)));
    assert!(matches!(result_type(generator.get_function_type("h")), Some(TypeSignature::IntType)));
    assert!(generator.get_function_type("i").is_none());
}

#[test]
fn reserved_names() {
    let generator = generator();
    for name in ["is-eq", "map-get?", "tx-sender", "is-in-mainnet", "none"] {
        assert!(generator.is_reserved_name(name));
    }
    assert!(!generator.is_reserved_name("my-function"));

    let contract = ContractAnalysis::new(vec![], None, ClarityVersion::Clarity1);
    let earlier = WasmGenerator::new(contract, &standard_library(&[], true)).unwrap();
    assert!(earlier.is_reserved_name("tx-sender"));
    assert!(!earlier.is_reserved_name("is-in-mainnet"));
    assert!(!earlier.is_reserved_name("slice?"));
    assert!(generator.is_reserved_name("slice?"));
}

#[test]
fn string_literal_is_noted_once() {
    let mut generator = generator();
    let first = generator.add_clarity_string_literal(&ascii("hello")).unwrap();
    assert_eq!(first, (1352, 5));
    let second = generator.add_clarity_string_literal(&ascii("world!")).unwrap();
    assert_eq!(second, (1357, 6));
    assert_eq!(generator.add_clarity_string_literal(&ascii("hello")).unwrap(), first);
    assert_eq!(generator.literal_memory_end, 1363);
    assert_eq!(
        segments(&generator),
        vec![(1352, b"hello".to_vec()), (1357, b"world!".to_vec())],
    );
}

#[test]
fn identifier_is_not_a_string() {
    let mut generator = generator();
    assert_eq!(generator.add_string_literal("hello").unwrap(), (1352, 5));
    assert_eq!(generator.add_clarity_string_literal(&ascii("hello")).unwrap(), (1357, 5));
    assert_eq!(generator.add_string_literal("hello").unwrap(), (1352, 5));
    // The key of an ASCII string is its printed form, with escapes.
    let entry = LiteralMemoryEntry::Ascii("\"hello\"".to_owned());
    assert_eq!(generator.literal_memory_offset.get(&entry), Some(1357));
    generator.add_clarity_string_literal(&ascii("a\"b\n")).unwrap();
    let entry = LiteralMemoryEntry::Ascii("\"a\\\"b\\n\"".to_owned());
    assert_eq!(generator.literal_memory_offset.get(&entry), Some(1362));
}

#[test]
fn strings_are_noted_as_they_print() {
    let mut generator = generator();
    let strings: [(&[u8], &str); 5] = [
        (b"plain ~ text", "\"plain ~ text\""),
        (b"\t\n\r", "\"\\t\\n\\r\""),
        (b"\"'\\", "\"\\\"\\'\\\\\""),
        (&[0, 31, 127, 0xab, 255], "\"\\x00\\x1f\\x7f\\xab\\xff\""),
        (b"", "\"\""),
    ];
    for (bytes, text) in strings {
        let characters = CharType::ASCII(bytes.to_vec());
        let (offset, length) = generator.add_clarity_string_literal(&characters).unwrap();
        assert_eq!(length as usize, bytes.len());
        let entry = LiteralMemoryEntry::Ascii(text.to_owned());
        assert_eq!(generator.literal_memory_offset.get(&entry), Some(offset));
    }
}

#[test]
fn literals_fill_the_memory() {
    let mut generator = generator();
    let mut placed = vec![];
    for round in 0..2u8 {
        let name = format!("name-{round}");
        placed.push((generator.add_string_literal(&name).unwrap(), name.into_bytes()));
        let buffer = Value::Sequence(SequenceData::Buffer(vec![round; 3]));
        placed.push((generator.add_literal(&buffer).unwrap(), vec![round; 3]));
        let again = generator.add_string_literal("again").unwrap();
        placed.push((again, b"again".to_vec()));
        let quoted = generator.add_clarity_string_literal(&ascii("again")).unwrap();
        placed.push((quoted, b"again".to_vec()));
        let wide = generator.add_clarity_string_literal(&utf8("again")).unwrap();
        placed.push((wide, "again".chars().flat_map(|c| (c as u32).to_be_bytes()).collect()));
    }
    let stored = segments(&generator);
    assert_eq!(stored.len(), 7);
    let mut end = END_OF_STANDARD_DATA;
    for (offset, bytes) in &stored {
        assert_eq!(*offset, end);
        end += bytes.len() as u32;
    }
    assert_eq!(generator.literal_memory_end, end);
    for ((offset, length), bytes) in placed {
        assert_eq!(length as usize, bytes.len());
        assert!(stored.contains(&(offset, bytes)));
    }
}

#[test]
fn unicode_literal_takes_four_bytes_for_each_character() {
    let mut generator = generator();
    let text = "a\u{e9}\u{1F600}";
    assert_eq!(generator.add_clarity_string_literal(&utf8(text)).unwrap(), (1352, 12));
    assert_eq!(generator.add_clarity_string_literal(&utf8(text)).unwrap(), (1352, 12));
    assert_eq!(
        segments(&generator),
        vec![(1352, vec![0, 0, 0, 0x61, 0, 0, 0, 0xe9, 0, 1, 0xf6, 0])],
    );
    // A UTF-8 string and an ASCII string with the same characters are kept apart.
    assert_eq!(generator.add_clarity_string_literal(&utf8("ab")).unwrap(), (1364, 8));
    assert_eq!(generator.add_clarity_string_literal(&ascii("ab")).unwrap(), (1372, 2));
}

#[test]
fn bytes_that_are_not_unicode_are_refused() {
    let mut generator = generator();
    let broken = CharType::UTF8(vec![vec![0x61], vec![0xff]]);
    assert_eq!(
        message(generator.add_clarity_string_literal(&broken)),
        "Internal error: Invalid UTF-8 sequence",
    );
    assert_eq!(generator.literal_memory_end, END_OF_STANDARD_DATA);
}

#[test]
fn literal_memory_has_an_end() {
    let mut generator = generator();
    generator.literal_memory_end = u32::MAX - 3;
    assert_eq!(
        message(generator.add_string_literal("hello")),
        "Internal error: literal memory is full",
    );
    assert_eq!(generator.add_string_literal("yes").unwrap(), (u32::MAX - 3, 3));
}

#[test]
fn literals_need_a_memory() {
    let mut generator = generator_without_memory();
    assert_eq!(
        message(generator.add_literal(&Value::Int(1))),
        "Internal error: No memory found",
    );
}

#[test]
fn bytes_of_literals() {
    let mut generator = generator();
    let account = || StandardPrincipalData { version: 22, hash: [7; 20] };
    let name = ContractName::new("token".to_owned()).unwrap();
    let values = [
        Value::Int(-2),
        Value::UInt(0x0102_0304_0506_0708_090a_0b0c_0d0e_0f10),
        Value::Principal(PrincipalData::Standard(account())),
        Value::Principal(PrincipalData::Contract(account(), name)),
        Value::Sequence(SequenceData::Buffer(vec![9, 8, 7])),
    ];
    let mut expected = vec![];
    let mut minus_two = vec![0xfe];
    minus_two.extend([0xff; 15]);
    expected.push(minus_two);
    expected.push((1..=16).rev().collect::<Vec<u8>>());
    let mut standard = vec![22];
    standard.extend([7; 20]);
    let mut contract = standard.clone();
    standard.push(0);
    expected.push(standard);
    contract.push(5);
    contract.extend(b"token");
    expected.push(contract);
    expected.push(vec![9, 8, 7]);
    let mut offset = 1352;
    for (value, bytes) in values.iter().zip(&expected) {
        let place = generator.add_literal(value).unwrap();
        assert_eq!(place, (offset, bytes.len() as u32));
        offset += bytes.len() as u32;
    }
    let stored: Vec<Vec<u8>> = segments(&generator).into_iter().map(|s| s.1).collect();
    assert_eq!(stored, expected);
}

#[test]
fn long_contract_names_are_refused() {
    assert!(ContractName::new("n".repeat(128)).is_some());
    assert!(ContractName::new("n".repeat(129)).is_none());
}

#[test]
fn values_that_are_no_literals_are_refused() {
    let mut generator = generator();
    let mut builder = builder(&mut generator);
    let values = [
        (Value::Bool(true), "Bool(true)"),
        (Value::Bool(false), "Bool(false)"),
        (Value::Tuple(printed("Tuple(..)")), "Tuple(..)"),
        (Value::Optional(printed("Optional(..)")), "Optional(..)"),
        (Value::Response(printed("Response(..)")), "Response(..)"),
        (Value::CallableContract(printed("Callable(..)")), "Callable(..)"),
        (Value::Sequence(SequenceData::List(printed("List(..)"))), "List(..)"),
    ];
    for (value, form) in values {
        let expected = format!("Type error: Not a valid literal type: {form}");
        assert_eq!(message(generator.add_literal(&value)), expected);
        let visited = generator.traverse_expr(&NoWords, &mut builder, &literal(value));
        assert_eq!(message(visited), expected);
    }
    assert!(instrs(&mut builder).is_empty());
}

#[test]
fn literals_are_pushed() {
    let mut generator = generator();
    let mut builder = builder(&mut generator);
    let text = Value::Sequence(SequenceData::String(ascii("abc")));
    let buffer = Value::Sequence(SequenceData::Buffer(vec![1, 2]));
    for value in [Value::Int(i128::MIN), Value::UInt(3), text, buffer] {
        generator.traverse_expr(&NoWords, &mut builder, &literal(value)).unwrap();
    }
    let pushed: Vec<WasmValue> = instrs(&mut builder)
        .into_iter()
        .map(|instr| match instr {
            Instr::Const(constant) => constant.value,
            other => panic!("{other:?}"),
        })
        .collect();
    assert_eq!(
        format!("{pushed:?}"),
        format!(
            "{:?}",
            vec![
                WasmValue::I64(0),
                WasmValue::I64(i64::MIN),
                WasmValue::I64(3),
                WasmValue::I64(0),
                WasmValue::I32(1352),
                WasmValue::I32(3),
                WasmValue::I32(1355),
                WasmValue::I32(2),
            ]
        ),
    );
}

#[test]
fn table_of_literals() {
    let mut table = LiteralTable::new();
    table.insert(LiteralMemoryEntry::Ascii("a".to_owned()), 1);
    table.insert(LiteralMemoryEntry::Utf8("a".to_owned()), 2);
    assert_eq!(table.get(&LiteralMemoryEntry::Ascii("a".to_owned())), Some(1));
    assert_eq!(table.get(&LiteralMemoryEntry::Utf8("a".to_owned())), Some(2));
    assert_eq!(table.get(&LiteralMemoryEntry::Ascii("b".to_owned())), None);
}

#[test]
fn placeholders_and_drops() {
    let mut generator = generator();
    let mut builder = builder(&mut generator);
    add_placeholder_for_type(&mut builder, WasmType::I32);
    add_placeholder_for_type(&mut builder, WasmType::I64);
    let ty = TypeSignature::OptionalType(Box::new(TypeSignature::IntType));
    add_placeholder_for_clarity_type(&mut builder, &ty);
    drop_value(&mut builder, &ty);
    let shown: Vec<String> = instrs(&mut builder)
        .into_iter()
        .map(|instr| match instr {
            Instr::Const(constant) => format!("{:?}", constant.value),
            Instr::Drop(_) => "drop".to_owned(),
            other => panic!("{other:?}"),
        })
        .collect();
    assert_eq!(
        shown,
        vec!["I32(0)", "I64(0)", "I32(0)", "I64(0)", "I64(0)", "drop", "drop", "drop"],
    );
}

#[test]
fn saved_locals_are_in_the_order_that_is_asked_for() {
    let mut generator = generator();
    let mut builder = builder(&mut generator);
    let ty = TypeSignature::OptionalType(Box::new(TypeSignature::IntType));
    let popped = generator.save_to_locals(&mut builder, &ty, false);
    let logical = generator.save_to_locals(&mut builder, &ty, true);
    let types = |generator: &WasmGenerator, locals: &[walrus::LocalId]| -> Vec<ValType> {
        locals.iter().map(|local| generator.module.locals.get(*local).ty()).collect()
    };
    assert_eq!(types(&generator, &popped), vec![ValType::I64, ValType::I64, ValType::I32]);
    assert_eq!(types(&generator, &logical), vec![ValType::I32, ValType::I64, ValType::I64]);
    let set: Vec<walrus::LocalId> = instrs(&mut builder)
        .into_iter()
        .map(|instr| match instr {
            Instr::LocalSet(set) => set.local,
            other => panic!("{other:?}"),
        })
        .collect();
    assert_eq!(set[..3], popped[..]);
    assert_eq!(set[3..], [logical[2], logical[1], logical[0]]);
}

#[test]
fn call_stack_local_moves_the_stack_pointer() {
    let mut generator = generator();
    let mut builder = builder(&mut generator);
    let ty = TypeSignature::SequenceType(SequenceSubtype::BufferType(10));
    let sizes: Vec<i32> = [(true, true), (false, true), (true, false)]
        .into_iter()
        .map(|(repr, value)| {
            generator.create_call_stack_local(&mut builder, &ty, repr, value).1
        })
        .collect();
    assert_eq!(sizes, vec![26, 10, 8]);
    assert_eq!(generator.frame_size, 44);
    assert_eq!(instrs(&mut builder).len(), 15);
}

#[test]
fn names_without_a_meaning_are_refused() {
    let mut generator = generator();
    let mut builder = builder(&mut generator);
    assert_eq!(
        message(generator.traverse_expr(&NoWords, &mut builder, &atom("nobody"))),
        "Internal error: unable to find local for nobody",
    );
}

#[test]
fn bindings_are_pushed() {
    let mut generator = generator();
    let mut builder = builder(&mut generator);
    let locals = generator.save_to_locals(&mut builder, &TypeSignature::IntType, true);
    generator.bindings.insert("x".to_owned(), locals.clone());
    generator.traverse_expr(&NoWords, &mut builder, &atom("x")).unwrap();
    let pushed: Vec<walrus::LocalId> = instrs(&mut builder)
        .into_iter()
        .filter_map(|instr| match instr {
            Instr::LocalGet(get) => Some(get.local),
            _ => None,
        })
        .collect();
    assert_eq!(pushed, locals);
}

#[test]
fn constants_must_be_typed() {
    let mut generator = generator();
    let mut builder = builder(&mut generator);
    assert!(!generator.lookup_constant_variable(&mut builder, "c", &atom("c")).unwrap());
    generator.constants.insert("c".to_owned(), 1400);
    assert_eq!(
        message(generator.lookup_constant_variable(&mut builder, "c", &atom("c"))),
        "Type error: constant must be typed",
    );
    generator.set_expr_type(&atom("c"), Rc::new(TypeSignature::IntType)).unwrap();
    assert!(generator.lookup_constant_variable(&mut builder, "c", &atom("c")).unwrap());
    generator.set_expr_type(&atom("c"), Rc::new(TypeSignature::ListUnionType)).unwrap();
    assert_eq!(
        message(generator.lookup_constant_variable(&mut builder, "c", &atom("c"))),
        "Type error: Not a valid value type: ListUnionType",
    );
}

#[test]
fn none_must_be_typed() {
    let mut generator = generator();
    let mut builder = builder(&mut generator);
    assert_eq!(
        message(generator.lookup_reserved_variable(&mut builder, "none", &atom("none"))),
        "Type error: 'none' must be typed",
    );
    assert!(!generator.lookup_reserved_variable(&mut builder, "nothing", &atom("x")).unwrap());
    assert!(generator.lookup_reserved_variable(&mut builder, "true", &atom("true")).unwrap());
    assert!(generator.lookup_reserved_variable(&mut builder, "false", &atom("false")).unwrap());
    let pushed: Vec<String> = instrs(&mut builder)
        .into_iter()
        .map(|instr| match instr {
            Instr::Const(constant) => format!("{:?}", constant.value),
            other => panic!("{other:?}"),
        })
        .collect();
    assert_eq!(pushed, vec!["I32(1)", "I32(0)"]);
}

#[test]
fn each_reserved_variable_calls_its_function() {
    let variables = [
        (NativeVariables::TxSender, "stdlib.tx_sender", 8),
        (NativeVariables::ContractCaller, "stdlib.contract_caller", 8),
        (NativeVariables::TxSponsor, "stdlib.tx_sponsor", 8),
        (NativeVariables::BlockHeight, "stdlib.block_height", 1),
        (NativeVariables::StacksBlockHeight, "stdlib.stacks_block_height", 1),
        (NativeVariables::TenureHeight, "stdlib.tenure_height", 1),
        (NativeVariables::BurnBlockHeight, "stdlib.burn_block_height", 1),
        (NativeVariables::TotalLiquidMicroSTX, "stdlib.stx_liquid_supply", 1),
        (NativeVariables::Regtest, "stdlib.is_in_regtest", 1),
        (NativeVariables::Mainnet, "stdlib.is_in_mainnet", 1),
        (NativeVariables::ChainId, "stdlib.chain_id", 1),
    ];
    for (variable, name, length) in variables {
        let mut generator = generator_with(&["other", name]);
        let mut builder = builder(&mut generator);
        generator.visit_reserved_variable(&mut builder, variable, &atom("x")).unwrap();
        let emitted = instrs(&mut builder);
        assert_eq!(emitted.len(), length);
        match emitted.last() {
            Some(Instr::Call(call)) => assert_eq!(call.func, generator.func_by_name(name)),
            other => panic!("{other:?}"),
        }
    }
}

#[test]
fn reserved_variables_by_name() {
    let names = [
        ("contract-caller", "stdlib.contract_caller"),
        ("tx-sender", "stdlib.tx_sender"),
        ("tx-sponsor?", "stdlib.tx_sponsor"),
        ("block-height", "stdlib.block_height"),
        ("burn-block-height", "stdlib.burn_block_height"),
        ("stx-liquid-supply", "stdlib.stx_liquid_supply"),
        ("is-in-regtest", "stdlib.is_in_regtest"),
        ("is-in-mainnet", "stdlib.is_in_mainnet"),
        ("chain-id", "stdlib.chain_id"),
    ];
    for (name, function) in names {
        let mut generator = generator_with(&["other", function]);
        let mut builder = builder(&mut generator);
        assert!(generator.lookup_reserved_variable(&mut builder, name, &atom(name)).unwrap());
        match instrs(&mut builder).last() {
            Some(Instr::Call(call)) => assert_eq!(call.func, generator.func_by_name(function)),
            other => panic!("{other:?}"),
        }
    }
}

#[test]
fn functions_that_are_missing_are_reported() {
    let mut generator = generator();
    let mut builder = builder(&mut generator);
    assert_eq!(
        message(generator.lookup_reserved_variable(&mut builder, "block-height", &atom("x"))),
        "Internal error: function not found: stdlib.block_height",
    );
    assert_eq!(
        message(generator.return_early(&mut builder)),
        "Internal error: function not found: stdlib.runtime-error",
    );
}

#[test]
fn frame_has_an_end() {
    let mut generator = generator_with(&["stdlib.tx_sender"]);
    let mut builder = builder(&mut generator);
    generator.frame_size = i32::MAX - 149;
    assert_eq!(
        message(generator.lookup_reserved_variable(&mut builder, "tx-sender", &atom("x"))),
        "Internal error: call frame is too large",
    );
    generator.frame_size = i32::MAX - 150;
    assert!(generator.lookup_reserved_variable(&mut builder, "tx-sender", &atom("x")).unwrap());
    assert_eq!(generator.frame_size, i32::MAX);
}

#[test]
fn early_return_inside_a_function_leaves_its_block() {
    let mut generator = generator_with(&["stdlib.runtime-error"]);
    let mut builder = builder(&mut generator);
    generator.return_early(&mut builder).unwrap();
    let block = builder.func.dangling_instr_seq(None).id();
    generator.early_return_block_id = Some(block);
    generator.return_early(&mut builder).unwrap();
    let emitted = instrs(&mut builder);
    assert_eq!(emitted.len(), 4);
    assert!(matches!(emitted[1], Instr::Call(_)));
    assert!(matches!(emitted[2], Instr::Unreachable(_)));
    match &emitted[3] {
        Instr::Br(br) => assert_eq!(br.block, block),
        other => panic!("{other:?}"),
    }
}

#[test]
fn values_are_logged() {
    let mut generator = generator_with(&["log"]);
    let mut builder = builder(&mut generator);
    generator.debug_log_i64(&mut builder);
    generator.debug_log_i32(&mut builder);
    let emitted = instrs(&mut builder);
    assert_eq!(emitted.len(), 3);
    assert!(matches!(emitted[0], Instr::Call(_)));
    assert!(matches!(emitted[1], Instr::Unop(_)));
    assert!(matches!(emitted[2], Instr::Call(_)));
}

#[test]
fn elements_of_sequences() {
    let mut generator = generator();
    let expr = atom("s");
    assert_eq!(
        message(generator.get_sequence_element_type(&expr)),
        "Type error: sequence expression must be typed",
    );
    generator.set_expr_type(&expr, Rc::new(TypeSignature::IntType)).unwrap();
    assert_eq!(
        message(generator.get_sequence_element_type(&expr)),
        "Type error: expected sequence type",
    );
    let mut element = |sequence: SequenceSubtype| {
        let ty = Rc::new(TypeSignature::SequenceType(sequence));
        generator.set_expr_type(&expr, ty).unwrap();
        generator.get_sequence_element_type(&expr).unwrap()
    };
    let string = SequenceSubtype::StringType;
    assert!(matches!(element(SequenceSubtype::BufferType(3)), SequenceElementType::Byte));
    assert!(matches!(element(string(StringSubtype::ASCII(3))), SequenceElementType::Byte));
    assert!(matches!(
        element(string(StringSubtype::UTF8(3))),
        SequenceElementType::UnicodeScalar
    ));
    let entry_type = Rc::new(TypeSignature::BoolType);
    match element(SequenceSubtype::ListType(ListTypeData { max_len: 4, entry_type })) {
        SequenceElementType::Other(ty) => assert!(matches!(*ty, TypeSignature::BoolType)),
        _ => panic!("not an element of a list"),
    }
}

#[test]
fn lists_that_are_no_calls_are_refused() {
    let mut generator = generator();
    let mut builder = builder(&mut generator);
    let empty = expression(SymbolicExpressionType::List(vec![]), 1);
    assert_eq!(
        message(generator.traverse_expr(&NoWords, &mut builder, &empty)),
        "Internal error: Invalid list",
    );
    let elements = vec![literal(Value::Int(1))];
    let number = expression(SymbolicExpressionType::List(elements), 2);
    assert_eq!(
        message(generator.traverse_expr(&NoWords, &mut builder, &number)),
        "Internal error: Invalid list",
    );
    let call = expression(SymbolicExpressionType::List(vec![atom("f")]), 3);
    assert_eq!(
        message(generator.traverse_expr(&NoWords, &mut builder, &call)),
        "Type error: function call expression must be typed",
    );
    generator.set_expr_type(&call, Rc::new(TypeSignature::IntType)).unwrap();
    assert_eq!(
        message(generator.traverse_expr(&NoWords, &mut builder, &call)),
        "Type error: function not found: f",
    );
}

#[test]
fn statement_lists_have_statements() {
    let mut generator = generator();
    let mut builder = builder(&mut generator);
    assert_eq!(
        message(generator.traverse_statement_list(&NoWords, &mut builder, &[])),
        "Internal error: statement list must have at least one statement",
    );
}

#[test]
fn blocks_must_be_typed() {
    let mut generator = generator();
    let mut builder = builder(&mut generator);
    let expr = literal(Value::Int(1));
    assert_eq!(
        message(generator.block_from_expr(&NoWords, &mut builder, &expr)),
        "Type error: Expression results must be typed",
    );
    generator.set_expr_type(&expr, Rc::new(TypeSignature::IntType)).unwrap();
    let outer = builder.seq;
    let block = generator.block_from_expr(&NoWords, &mut builder, &expr).unwrap();
    assert_eq!(builder.seq, outer);
    assert!(instrs(&mut builder).is_empty());
    assert_eq!(builder.func.instr_seq(block).instrs().len(), 2);
}

#[test]
fn definition_needs_the_type_of_the_function() {
    let mut generator = generator_with(&["stdlib.define_function"]);
    let mut builder = builder(&mut generator);
    let body = literal(Value::Int(1));
    let define = |generator: &mut WasmGenerator, builder: &mut InstrSeqBuilder| {
        message(generator.traverse_define_function(
            &NoWords,
            builder,
            "f",
            &body,
            FunctionKind::Private,
        ))
    };
    assert_eq!(
        define(&mut generator, &mut builder),
        "Type error: unable to find function type for f",
    );
    generator.contract_analysis.add_private_function("f".to_owned(), FunctionType::Other);
    assert_eq!(
        define(&mut generator, &mut builder),
        "Type error: expected fixed function type",
    );
}

#[test]
fn definition_leaves_no_trace_in_the_generator() {
    let mut generator = generator_with(&["stdlib.define_function"]);
    let mut builder = builder(&mut generator);
    let outer = generator.save_to_locals(&mut builder, &TypeSignature::BoolType, true);
    generator.bindings.insert("outer".to_owned(), outer.clone());
    let params = vec![("a", TypeSignature::IntType), ("b", TypeSignature::BoolType)];
    generator
        .contract_analysis
        .add_public_function("f".to_owned(), fixed(params, TypeSignature::BoolType));
    let function = generator
        .traverse_define_function(
            &NoWords,
            &mut builder,
            "f",
            &atom("b"),
            FunctionKind::Public,
        )
        .unwrap();
    assert_eq!(generator.func_by_name("f"), function);
    assert_eq!(generator.bindings.get("outer"), Some(&outer));
    assert!(generator.bindings.get("b").is_none());
    assert!(generator.return_type.is_none());
    assert!(generator.early_return_block_id.is_none());
    let ty = generator.module.types.get(generator.module.funcs.get(function).ty());
    assert_eq!(ty.params(), [ValType::I64, ValType::I64, ValType::I32]);
    assert_eq!(ty.results(), [ValType::I32]);
}
