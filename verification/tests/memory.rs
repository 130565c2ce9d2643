//! Values that are written to memory and read back, in a module that runs.
use std::collections::HashMap;
use std::rc::Rc;

use clar2wasm::analysis::{
    ClarityVersion, ContractAnalysis, SymbolicExpression, SymbolicExpressionType, Value,
};
use clar2wasm::builder::InstrSeqBuilder;
use clar2wasm::error::GeneratorError;
use clar2wasm::generator::WasmGenerator;
use clar2wasm::ir::WasmType;
use clar2wasm::layout::{
    add_placeholder_for_clarity_type, clar2wasm_ty, drop_value, get_type_size,
};
use clar2wasm::types::{SequenceSubtype, TupleTypeSignature, TypeSignature};
use clar2wasm::words::NoWords;
use walrus::ir::Value as WasmValue;
use walrus::{FunctionBuilder, InitExpr, LocalId, Module, ValType};

fn standard_library() -> Vec<u8> {
    let mut module = Module::default();
    let memory = module.memories.add_local(false, 1, None);
    module.exports.add("memory", memory);
    let init = InitExpr::Value(WasmValue::I32(0));
    module.globals.add_local(ValType::I32, true, init);
    let mut wasm = module.emit_wasm();
    wasm.extend(b"\x00\x17\x04name\x07\x10\x01\x00\x0dstack-pointer");
    wasm
}

fn generator() -> WasmGenerator {
    let contract = ContractAnalysis::new(vec![], Some(HashMap::new()), ClarityVersion::Clarity2);
    WasmGenerator::new(contract, &standard_library()).unwrap()
}

fn walrus_types(types: &[WasmType]) -> Vec<ValType> {
    types
        .iter()
        .map(|ty| if *ty == WasmType::I64 { ValType::I64 } else { ValType::I32 })
        .collect()
}

/// Builds a function that leaves values of a type, and runs it.
fn run(
    ty: &TypeSignature,
    address: i32,
    build: impl FnOnce(&mut WasmGenerator, &mut InstrSeqBuilder, LocalId),
) -> (Vec<wasmi::Val>, Vec<u8>) {
    let mut generator = generator();
    let results = walrus_types(&clar2wasm_ty(ty));
    let function = FunctionBuilder::new(&mut generator.module.types, &[], &results);
    let mut builder = InstrSeqBuilder::new(function);
    let offset = generator.module.locals.add(ValType::I32);
    builder.func.instr_seq(builder.seq).i32_const(address).local_set(offset);
    build(&mut generator, &mut builder, offset);
    let function = builder.func.finish(vec![], &mut generator.module.funcs);
    generator.module.exports.add("run", function);
    let engine = wasmi::Engine::default();
    let wasm = wasmi::Module::new(&engine, generator.module.emit_wasm()).unwrap();
    let mut store = wasmi::Store::new(&engine, ());
    let linker = wasmi::Linker::new(&engine);
    let instance = linker.instantiate_and_start(&mut store, &wasm).unwrap();
    let mut words = vec![wasmi::Val::I32(0); results.len()];
    instance.get_func(&store, "run").unwrap().call(&mut store, &[], &mut words).unwrap();
    let memory = instance.get_memory(&store, "memory").unwrap().data(&store).to_vec();
    (words, memory)
}

fn push(builder: &mut InstrSeqBuilder, words: &[i64], types: &[WasmType]) {
    for (word, ty) in words.iter().zip(types) {
        let mut seq = builder.func.instr_seq(builder.seq);
        match ty {
            WasmType::I64 => seq.i64_const(*word),
            _ => seq.i32_const(*word as i32),
        };
    }
}

fn numbers(words: &[wasmi::Val]) -> Vec<i64> {
    words
        .iter()
        .map(|word| word.i64().unwrap_or_else(|| word.i32().unwrap() as i64))
        .collect()
}

/// Writes words of a type at `address` plus `offset` and reads them back. Returns what was
/// read, and the bytes that were written.
fn round_trip(ty: &TypeSignature, words: &[i64], address: i32, offset: u32) -> (Vec<i64>, Vec<u8>) {
    let types = clar2wasm_ty(ty);
    let (read, memory) = run(ty, address, |generator, builder, local| {
        push(builder, words, &types);
        let written = generator.write_to_memory(builder, local, offset, ty).unwrap();
        let read = generator.read_from_memory(builder, local, offset, ty).unwrap();
        assert_eq!(written as i32, get_type_size(ty));
        assert_eq!(read, get_type_size(ty));
    });
    let start = address as usize + offset as usize;
    let end = start + get_type_size(ty) as usize;
    assert!(memory[..start].iter().all(|byte| *byte == 0));
    assert!(memory[end..].iter().all(|byte| *byte == 0));
    (numbers(&read), memory[start..end].to_vec())
}

fn optional(inner: TypeSignature) -> TypeSignature {
    TypeSignature::OptionalType(Box::new(inner))
}

fn response(ok: TypeSignature, err: TypeSignature) -> TypeSignature {
    TypeSignature::ResponseType(Box::new((ok, err)))
}

fn tuple(fields: Vec<(&str, TypeSignature)>) -> TypeSignature {
    let mut tuple = TupleTypeSignature::new();
    for (name, ty) in fields {
        tuple.insert(name.to_owned(), ty);
    }
    TypeSignature::TupleType(tuple)
}

fn message<T>(result: Result<T, GeneratorError>) -> String {
    match result {
        Ok(_) => panic!("no error"),
        Err(error) => error.message(),
    }
}

#[test]
fn number_is_read_back() {
    let (words, bytes) = round_trip(&TypeSignature::IntType, &[-2, 5], 100, 8);
    assert_eq!(words, vec![-2, 5]);
    let mut expected = (-2i64).to_le_bytes().to_vec();
    expected.extend(5i64.to_le_bytes());
    assert_eq!(bytes, expected);
}

#[test]
fn place_and_length_are_read_back() {
    let buffer = TypeSignature::SequenceType(SequenceSubtype::BufferType(9));
    let principals = [
        TypeSignature::PrincipalType,
        TypeSignature::CallableType,
        TypeSignature::TraitReferenceType,
        buffer,
    ];
    for ty in principals {
        let (words, bytes) = round_trip(&ty, &[1500, 22], 0, 0);
        assert_eq!(words, vec![1500, 22]);
        assert_eq!(bytes, vec![0xdc, 5, 0, 0, 22, 0, 0, 0]);
    }
}

#[test]
fn placeholder_is_read_back_as_zero() {
    let (words, bytes) = round_trip(&TypeSignature::NoType, &[77], 16, 4);
    assert_eq!(words, vec![0]);
    assert_eq!(bytes, vec![0; 4]);
}

#[test]
fn response_is_read_back() {
    let ty = response(TypeSignature::UIntType, optional(TypeSignature::BoolType));
    let (words, bytes) = round_trip(&ty, &[1, 10, 11, 1, 1], 40, 0);
    assert_eq!(words, vec![1, 10, 11, 1, 1]);
    // The indicator, the `ok` value, and the `err` value follow each other.
    assert_eq!(bytes[0], 1);
    assert_eq!(bytes[4], 10);
    assert_eq!(bytes[12], 11);
    assert_eq!(bytes[20], 1);
    assert_eq!(bytes[24], 1);
    assert_eq!(bytes.len(), 28);
}

#[test]
fn tuple_is_read_back() {
    let ty = tuple(vec![
        ("z", optional(TypeSignature::PrincipalType)),
        ("a", TypeSignature::IntType),
        ("m", tuple(vec![("x", TypeSignature::BoolType), ("y", TypeSignature::NoType)])),
    ]);
    let (words, bytes) = round_trip(&ty, &[1, 2, 3, 99, 4, 5, 6], 64, 32);
    assert_eq!(words, vec![1, 2, 3, 0, 4, 5, 6]);
    let firsts: Vec<u8> = [0, 8, 16, 20, 24, 28, 32].iter().map(|at| bytes[*at]).collect();
    assert_eq!(firsts, vec![1, 2, 3, 0, 4, 5, 6]);
}

#[test]
fn saved_value_comes_back() {
    let ty = response(TypeSignature::IntType, TypeSignature::BoolType);
    let types = clar2wasm_ty(&ty);
    let (read, _) = run(&ty, 0, |generator, builder, _| {
        push(builder, &[1, 2, 3, 4], &types);
        for local in generator.save_to_locals(builder, &ty, true) {
            builder.func.instr_seq(builder.seq).local_get(local);
        }
    });
    assert_eq!(numbers(&read), vec![1, 2, 3, 4]);
}

#[test]
fn rooms_on_the_call_stack_follow_each_other() {
    let ty = TypeSignature::PrincipalType;
    let (read, _) = run(&ty, 0, |generator, builder, _| {
        let (first, size) = generator.create_call_stack_local(builder, &ty, true, false);
        assert_eq!(size, 8);
        let (second, size) = generator.create_call_stack_local(builder, &ty, false, true);
        assert_eq!(size, 150);
        builder.func.instr_seq(builder.seq).local_get(first).local_get(second);
    });
    assert_eq!(numbers(&read), vec![0, 8]);
}

#[test]
fn unions_have_no_values() {
    let mut generator = generator();
    let function = FunctionBuilder::new(&mut generator.module.types, &[], &[]);
    let mut builder = InstrSeqBuilder::new(function);
    let local = generator.module.locals.add(ValType::I32);
    let refused = "Type error: Not a valid value type: ListUnionType";
    let ty = optional(TypeSignature::ListUnionType);
    assert_eq!(message(generator.write_to_memory(&mut builder, local, 0, &ty)), refused);
    assert!(builder.func.instr_seq(builder.seq).instrs().is_empty());
    assert_eq!(message(generator.read_from_memory(&mut builder, local, 0, &ty)), refused);
    // The indicator was read before the union was met.
    assert_eq!(builder.func.instr_seq(builder.seq).instrs().len(), 2);
}

#[test]
fn offsets_must_be_countable() {
    let mut generator = generator();
    let function = FunctionBuilder::new(&mut generator.module.types, &[], &[]);
    let mut builder = InstrSeqBuilder::new(function);
    let local = generator.module.locals.add(ValType::I32);
    let refused = "Internal error: value does not fit in memory";
    let int = || TypeSignature::IntType;
    let flag = || TypeSignature::BoolType;
    // How far before the last offset the last part of a value starts, and its size.
    let types = [
        (flag(), 0, 4),
        (TypeSignature::NoType, 0, 4),
        (int(), 8, 16),
        (TypeSignature::PrincipalType, 4, 8),
        (optional(flag()), 4, 8),
        (optional(int()), 12, 20),
        (response(flag(), int()), 16, 24),
        (response(int(), flag()), 20, 24),
        (tuple(vec![]), 0, 0),
        (tuple(vec![("a", int()), ("b", flag())]), 16, 20),
    ];
    for (ty, distance, size) in &types {
        let last = u32::MAX - distance;
        assert_eq!(generator.write_to_memory(&mut builder, local, last, ty).unwrap(), *size);
        let read = generator.read_from_memory(&mut builder, local, last, ty).unwrap();
        assert_eq!(read, *size as i32);
        if *distance > 0 {
            let length = builder.func.instr_seq(builder.seq).instrs().len();
            let written = generator.write_to_memory(&mut builder, local, last + 1, ty);
            assert_eq!(message(written), refused);
            let read = generator.read_from_memory(&mut builder, local, last + 1, ty);
            assert_eq!(message(read), refused);
            assert_eq!(builder.func.instr_seq(builder.seq).instrs().len(), length);
        }
    }
    for last in [0xffff_fffc, 0xffff_fff0] {
        assert_eq!(generator.write_to_memory(&mut builder, local, last, &flag()).unwrap(), 4);
        assert_eq!(generator.read_from_memory(&mut builder, local, last, &flag()).unwrap(), 4);
    }
    assert_eq!(generator.write_to_memory(&mut builder, local, 0xffff_fff0, &int()).unwrap(), 16);
    assert_eq!(generator.read_from_memory(&mut builder, local, 0xffff_fff0, &int()).unwrap(), 16);
}

#[test]
fn first_obstacle_decides() {
    let mut generator = generator();
    let function = FunctionBuilder::new(&mut generator.module.types, &[], &[]);
    let mut builder = InstrSeqBuilder::new(function);
    let local = generator.module.locals.add(ValType::I32);
    let union = || TypeSignature::ListUnionType;
    let no_value = "Type error: Not a valid value type: ListUnionType";
    let too_large = "Internal error: value does not fit in memory";
    let union_first = tuple(vec![("a", union()), ("b", TypeSignature::IntType)]);
    let union_last = tuple(vec![("a", TypeSignature::IntType), ("b", union())]);
    for (ty, offset, expected) in [
        (&union_first, u32::MAX, no_value),
        (&union_last, u32::MAX, too_large),
        (&union_last, u32::MAX - 8, too_large),
        (&union_last, u32::MAX - 16, no_value),
    ] {
        let read = generator.read_from_memory(&mut builder, local, offset, ty);
        assert_eq!(message(read), expected);
        let written = generator.write_to_memory(&mut builder, local, offset, ty);
        assert_eq!(message(written), no_value);
    }
    // Only the last one got as far as to read the number.
    assert_eq!(builder.func.instr_seq(builder.seq).instrs().len(), 4);
}

#[test]
fn number_is_the_same_pushed_or_read_from_the_literals() {
    let numbers_to_try = [0, 1, -1, i128::MAX, i128::MIN, 1 << 64, -(1 << 70) + 5];
    for number in numbers_to_try {
        let ty = TypeSignature::IntType;
        let value = Value::Int(number);
        let (read, _) = run(&ty, 0, |generator, builder, _| {
            let (offset, length) = generator.add_literal(&value).unwrap();
            assert_eq!(length, 16);
            let local = generator.module.locals.add(ValType::I32);
            builder.func.instr_seq(builder.seq).i32_const(offset as i32).local_set(local);
            generator.read_from_memory(builder, local, 0, &ty).unwrap();
        });
        let expr = SymbolicExpression {
            expr: SymbolicExpressionType::LiteralValue(Value::Int(number)),
            id: 1,
            printed: "number".to_owned(),
        };
        let (pushed, _) = run(&ty, 0, |generator, builder, _| {
            generator.traverse_expr(&NoWords, builder, &expr).unwrap();
        });
        assert_eq!(numbers(&read), numbers(&pushed));
        assert_eq!(numbers(&read), vec![number as i64, (number >> 64) as i64]);
    }
}

#[test]
fn constant_is_read_from_the_literals() {
    let ty = TypeSignature::UIntType;
    let expr = SymbolicExpression {
        expr: SymbolicExpressionType::Atom("answer".to_owned()),
        id: 1,
        printed: "answer".to_owned(),
    };
    let (read, _) = run(&ty, 0, |generator, builder, _| {
        generator.add_literal(&Value::UInt(7)).unwrap();
        let (offset, _) = generator.add_literal(&Value::UInt(42)).unwrap();
        generator.constants.insert("answer".to_owned(), offset);
        generator.set_expr_type(&expr, Rc::new(TypeSignature::UIntType)).unwrap();
        generator.traverse_expr(&NoWords, builder, &expr).unwrap();
    });
    assert_eq!(numbers(&read), vec![42, 0]);
}

#[test]
fn drop_takes_exactly_the_value() {
    let kept = TypeSignature::IntType;
    let dropped = optional(TypeSignature::PrincipalType);
    let (read, _) = run(&kept, 0, |_, builder, _| {
        push(builder, &[8, 9], &clar2wasm_ty(&kept));
        push(builder, &[1, 2, 3], &clar2wasm_ty(&dropped));
        drop_value(builder, &dropped);
    });
    assert_eq!(numbers(&read), vec![8, 9]);
}

#[test]
fn placeholder_is_zeros_of_the_type() {
    let ty = response(optional(TypeSignature::IntType), TypeSignature::PrincipalType);
    let (read, _) = run(&ty, 0, |_, builder, _| {
        add_placeholder_for_clarity_type(builder, &ty);
    });
    assert_eq!(numbers(&read), vec![0; 6]);
}
