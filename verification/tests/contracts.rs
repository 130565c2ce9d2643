//! Whole contracts: parsed and type checked by `clarity`, generated, and run.
use std::collections::HashMap;
use std::rc::Rc;

use clar2wasm::analysis as lib;
use clar2wasm::arguments::ArgumentsExt;
use clar2wasm::builder::InstrSeqBuilder;
use clar2wasm::error::GeneratorError;
use clar2wasm::generator::{WasmGenerator, END_OF_STANDARD_DATA};
use clar2wasm::layout::add_placeholder_for_clarity_type;
use clar2wasm::program::FunctionKind;
use clar2wasm::progress::Progress;
use clar2wasm::types as lib_types;
use clar2wasm::types::TypeSignature as T;
use clar2wasm::words::{ArgumentTypes, Arguments, Name, NoWords, Words};
use clarity::types::StacksEpochId;
use clarity::vm::analysis::run_analysis;
use clarity::vm::analysis::type_checker::contexts::TypeMap;
use clarity::vm::analysis::ContractAnalysis;
use clarity::vm::ast::{build_ast_with_rules, ASTRules};
use clarity::vm::costs::LimitedCostTracker;
use clarity::vm::database::clarity_store::NullBackingStore;
use clarity::vm::types::{
    CharType, FunctionType, PrincipalData, QualifiedContractIdentifier, ResponseData, SequenceData,
    SequenceSubtype, StringSubtype, TypeSignature,
};
use clarity::vm::{ClarityVersion, SymbolicExpression, SymbolicExpressionType, Value};
use walrus::ir::{BinaryOp, LoadKind, MemArg, Value as WasmValue};
use walrus::{FunctionBuilder, InitExpr, Module, ValType};

// ---- From `clarity` to the library ----

fn convert_type(ty: &TypeSignature) -> lib_types::TypeSignature {
    match ty {
        TypeSignature::NoType => T::NoType,
        TypeSignature::IntType => T::IntType,
        TypeSignature::UIntType => T::UIntType,
        TypeSignature::BoolType => T::BoolType,
        TypeSignature::PrincipalType => T::PrincipalType,
        TypeSignature::SequenceType(SequenceSubtype::BufferType(length)) => {
            T::SequenceType(lib_types::SequenceSubtype::BufferType(u32::from(length)))
        }
        TypeSignature::SequenceType(SequenceSubtype::ListType(list)) => T::SequenceType(
            lib_types::SequenceSubtype::ListType(lib_types::ListTypeData {
                max_len: list.get_max_len(),
                entry_type: Rc::new(convert_type(list.get_list_item_type())),
            }),
        ),
        TypeSignature::SequenceType(SequenceSubtype::StringType(StringSubtype::ASCII(length))) => {
            T::SequenceType(lib_types::SequenceSubtype::StringType(
                lib_types::StringSubtype::ASCII(u32::from(length)),
            ))
        }
        TypeSignature::SequenceType(SequenceSubtype::StringType(StringSubtype::UTF8(length))) => {
            T::SequenceType(lib_types::SequenceSubtype::StringType(
                lib_types::StringSubtype::UTF8(u32::from(length)),
            ))
        }
        TypeSignature::TupleType(tuple) => {
            let mut fields = lib_types::TupleTypeSignature::new();
            for (name, ty) in tuple.get_type_map() {
                fields.insert(name.to_string(), convert_type(ty));
            }
            T::TupleType(fields)
        }
        TypeSignature::OptionalType(inner) => T::OptionalType(Box::new(convert_type(inner))),
        TypeSignature::ResponseType(inner) => {
            T::ResponseType(Box::new((convert_type(&inner.0), convert_type(&inner.1))))
        }
        TypeSignature::CallableType(_) => T::CallableType,
        TypeSignature::ListUnionType(_) => T::ListUnionType,
        TypeSignature::TraitReferenceType(_) => T::TraitReferenceType,
    }
}

fn convert_value(value: &Value) -> lib::Value {
    let printed = || lib::Printed { text: format!("{value:?}") };
    match value {
        Value::Int(number) => lib::Value::Int(*number),
        Value::UInt(number) => lib::Value::UInt(*number),
        Value::Bool(truth) => lib::Value::Bool(*truth),
        Value::Sequence(SequenceData::Buffer(buffer)) => {
            lib::Value::Sequence(lib::SequenceData::Buffer(buffer.data.clone()))
        }
        Value::Sequence(SequenceData::List(_)) => {
            lib::Value::Sequence(lib::SequenceData::List(printed()))
        }
        Value::Sequence(SequenceData::String(CharType::ASCII(text))) => {
            lib::Value::Sequence(lib::SequenceData::String(lib::CharType::ASCII(text.data.clone())))
        }
        Value::Sequence(SequenceData::String(CharType::UTF8(text))) => {
            lib::Value::Sequence(lib::SequenceData::String(lib::CharType::UTF8(text.data.clone())))
        }
        Value::Principal(PrincipalData::Standard(account)) => {
            lib::Value::Principal(lib::PrincipalData::Standard(lib::StandardPrincipalData {
                version: account.0,
                hash: account.1,
            }))
        }
        Value::Principal(PrincipalData::Contract(contract)) => {
            lib::Value::Principal(lib::PrincipalData::Contract(
                lib::StandardPrincipalData { version: contract.issuer.0, hash: contract.issuer.1 },
                lib::ContractName::new(contract.name.to_string()).unwrap(),
            ))
        }
        Value::Tuple(_) => lib::Value::Tuple(printed()),
        Value::Optional(_) => lib::Value::Optional(printed()),
        Value::Response(_) => lib::Value::Response(printed()),
        Value::CallableContract(_) => lib::Value::CallableContract(printed()),
    }
}

fn convert_expr(expr: &SymbolicExpression) -> lib::SymbolicExpression {
    let form = match &expr.expr {
        SymbolicExpressionType::AtomValue(value) => {
            lib::SymbolicExpressionType::AtomValue(convert_value(value))
        }
        SymbolicExpressionType::Atom(name) => lib::SymbolicExpressionType::Atom(name.to_string()),
        SymbolicExpressionType::List(list) => {
            lib::SymbolicExpressionType::List(list.iter().map(convert_expr).collect())
        }
        SymbolicExpressionType::LiteralValue(value) => {
            lib::SymbolicExpressionType::LiteralValue(convert_value(value))
        }
        SymbolicExpressionType::Field(_) => lib::SymbolicExpressionType::Field,
        SymbolicExpressionType::TraitReference(..) => lib::SymbolicExpressionType::TraitReference,
    };
    lib::SymbolicExpression { expr: form, id: expr.id, printed: format!("{expr:?}") }
}

fn collect_types(
    map: &TypeMap,
    expr: &SymbolicExpression,
    types: &mut HashMap<u64, Rc<lib_types::TypeSignature>>,
) {
    if let Some(ty) = map.get_type(expr) {
        types.insert(expr.id, Rc::new(convert_type(ty)));
    }
    if let Some(list) = expr.match_list() {
        for element in list {
            collect_types(map, element, types);
        }
    }
}

fn convert_function(ty: &FunctionType) -> lib_types::FunctionType {
    match ty {
        FunctionType::Fixed(fixed) => {
            let args = fixed
                .args
                .iter()
                .map(|arg| lib_types::FunctionArg {
                    name: arg.name.to_string(),
                    signature: Rc::new(convert_type(&arg.signature)),
                })
                .collect();
            let returns = Rc::new(convert_type(&fixed.returns));
            lib_types::FunctionType::Fixed(Rc::new(lib_types::FixedFunction { args, returns }))
        }
        _ => lib_types::FunctionType::Other,
    }
}

fn convert(contract: &ContractAnalysis) -> lib::ContractAnalysis {
    let type_map = contract.type_map.as_ref().map(|map| {
        let mut types = HashMap::new();
        for expr in &contract.expressions {
            collect_types(map, expr, &mut types);
        }
        types
    });
    let version = match contract.clarity_version {
        ClarityVersion::Clarity1 => lib::ClarityVersion::Clarity1,
        ClarityVersion::Clarity2 => lib::ClarityVersion::Clarity2,
    };
    let expressions = contract.expressions.iter().map(convert_expr).collect();
    let mut converted = lib::ContractAnalysis::new(expressions, type_map, version);
    for (name, ty) in &contract.public_function_types {
        converted.add_public_function(name.to_string(), convert_function(ty));
    }
    for (name, ty) in &contract.read_only_function_types {
        converted.add_read_only_function(name.to_string(), convert_function(ty));
    }
    for (name, ty) in &contract.private_function_types {
        converted.add_private_function(name.to_string(), convert_function(ty));
    }
    converted
}

fn analyse(snippet: &str, epoch: StacksEpochId, version: ClarityVersion) -> ContractAnalysis {
    let id = QualifiedContractIdentifier::transient();
    let mut costs = LimitedCostTracker::new_free();
    let rules = ASTRules::PrecheckSize;
    let ast = build_ast_with_rules(&id, snippet, &mut costs, version, epoch, rules)
        .expect("the contract parses");
    let mut store = NullBackingStore::new();
    run_analysis(
        &id,
        &ast.expressions,
        &mut store.as_analysis_db(),
        false,
        LimitedCostTracker::new_free(),
        epoch,
        version,
    )
    .map_err(|(error, _)| error)
    .expect("the contract type checks")
}

// ---- Words ----

/// A few words of the language.
struct TestWords;

impl TestWords {
    fn define(
        &self,
        generator: &mut WasmGenerator,
        builder: &mut InstrSeqBuilder,
        args: &[lib::SymbolicExpression],
        kind: FunctionKind,
        is_exported: bool,
    ) -> Result<(), GeneratorError> {
        let signature = args.get_list(0)?;
        let name = signature.get_name(0)?.to_owned();
        let body = args.get_expr(1)?;
        let function = generator.traverse_define_function(self, builder, &name, body, kind)?;
        if is_exported {
            generator.module.exports.add(&name, function);
        }
        Ok(())
    }

    fn response(
        &self,
        generator: &mut WasmGenerator,
        builder: &mut InstrSeqBuilder,
        expr: &lib::SymbolicExpression,
        args: &[lib::SymbolicExpression],
        is_ok: bool,
    ) -> Result<(), GeneratorError> {
        let ty = generator
            .get_expr_type(expr)
            .cloned()
            .ok_or_else(|| GeneratorError::TypeError("response must be typed".to_owned()))?;
        let inner = match &*ty {
            lib_types::TypeSignature::ResponseType(inner) => inner,
            _ => return Err(GeneratorError::TypeError("expected a response".to_owned())),
        };
        builder.func.instr_seq(builder.seq).i32_const(is_ok as i32);
        if !is_ok {
            add_placeholder_for_clarity_type(builder, &inner.0);
        }
        generator.traverse_expr(self, builder, args.get_expr(0)?)?;
        if is_ok {
            add_placeholder_for_clarity_type(builder, &inner.1);
        }
        Ok(())
    }

    fn is_eq(
        &self,
        generator: &mut WasmGenerator,
        builder: &mut InstrSeqBuilder,
        args: &[lib::SymbolicExpression],
    ) -> Result<(), GeneratorError> {
        let compare = generator.func_by_name("test.same-bytes");
        let ty = generator
            .get_expr_type(args.get_expr(0)?)
            .cloned()
            .ok_or_else(|| GeneratorError::TypeError("argument must be typed".to_owned()))?;
        generator.traverse_expr(self, builder, args.get_expr(0)?)?;
        let first = generator.save_to_locals(builder, &ty, true);
        builder.func.instr_seq(builder.seq).i32_const(1);
        for arg in &args[1..] {
            for local in &first {
                builder.func.instr_seq(builder.seq).local_get(*local);
            }
            generator.traverse_expr(self, builder, arg)?;
            builder.func.instr_seq(builder.seq).call(compare).binop(BinaryOp::I32And);
        }
        Ok(())
    }
}

impl Words for TestWords {
    // What the words mean in contracts is never run.
    fn is_complex(&self, _: Name) -> bool {
        unreachable!()
    }

    fn is_simple(&self, _: Name) -> bool {
        unreachable!()
    }

    fn is_variadic(&self, _: Name) -> bool {
        unreachable!()
    }

    fn complex_effect(
        &self,
        _: Name,
        _: Progress,
        _: lib::SymbolicExpression,
        _: Arguments,
    ) -> Progress {
        unreachable!()
    }

    fn simple_effect(
        &self,
        _: Name,
        _: Progress,
        _: ArgumentTypes,
        _: lib_types::TypeSignature,
    ) -> Progress {
        unreachable!()
    }

    fn variadic_effect(
        &self,
        _: Name,
        _: Progress,
        _: ArgumentTypes,
        _: lib_types::TypeSignature,
    ) -> Progress {
        unreachable!()
    }

    fn lookup_complex(&self, name: &str) -> bool {
        matches!(
            name,
            "define-public"
                | "define-private"
                | "define-read-only"
                | "ok"
                | "err"
                | "begin"
                | "is-eq"
                | "asserts!"
        )
    }

    fn lookup_simple(&self, name: &str) -> bool {
        matches!(name, "not")
    }

    fn lookup_variadic_simple(&self, name: &str) -> bool {
        matches!(name, "and" | "or")
    }

    fn traverse(
        &self,
        name: &str,
        generator: &mut WasmGenerator,
        builder: &mut InstrSeqBuilder,
        expr: &lib::SymbolicExpression,
        args: &[lib::SymbolicExpression],
    ) -> Result<(), GeneratorError> {
        match name {
            "define-public" => self.define(generator, builder, args, FunctionKind::Public, true),
            "define-read-only" => {
                self.define(generator, builder, args, FunctionKind::ReadOnly, true)
            }
            "define-private" => self.define(generator, builder, args, FunctionKind::Private, false),
            "ok" => self.response(generator, builder, expr, args, true),
            "err" => self.response(generator, builder, expr, args, false),
            "begin" => {
                // The last statement has the value of the whole.
                let ty = generator.get_expr_type(expr).cloned();
                if let (Some(ty), Some(last)) = (ty, args.last()) {
                    generator.set_expr_type(last, ty)?;
                }
                generator.traverse_statement_list(self, builder, args)
            }
            "is-eq" => self.is_eq(generator, builder, args),
            "asserts!" => {
                // Leave with the second argument where the first one is false.
                generator.traverse_expr(self, builder, args.get_expr(0)?)?;
                let outer = builder.seq;
                let kept = builder.func.dangling_instr_seq(None).id();
                let left = builder.func.dangling_instr_seq(None).id();
                builder.seq = left;
                if let Some(ty) = generator.return_type.clone() {
                    generator.set_expr_type(args.get_expr(1)?, ty)?;
                }
                generator.traverse_expr(self, builder, args.get_expr(1)?)?;
                generator.return_early(builder)?;
                builder.func.instr_seq(left).unreachable();
                builder.seq = outer;
                builder.func.instr_seq(outer).instr(walrus::ir::IfElse {
                    consequent: kept,
                    alternative: left,
                });
                builder.func.instr_seq(outer).i32_const(1);
                Ok(())
            }
            _ => Err(GeneratorError::NotImplemented),
        }
    }

    fn visit_simple(
        &self,
        name: &str,
        _generator: &mut WasmGenerator,
        builder: &mut InstrSeqBuilder,
        _arg_types: &[Rc<lib_types::TypeSignature>],
        _return_type: &lib_types::TypeSignature,
    ) -> Result<(), GeneratorError> {
        assert_eq!(name, "not");
        builder.func.instr_seq(builder.seq).unop(walrus::ir::UnaryOp::I32Eqz);
        Ok(())
    }

    fn visit_variadic(
        &self,
        name: &str,
        _generator: &mut WasmGenerator,
        builder: &mut InstrSeqBuilder,
        arg_types: &[Rc<lib_types::TypeSignature>],
        _return_type: &lib_types::TypeSignature,
    ) -> Result<(), GeneratorError> {
        if arg_types.len() == 2 {
            let op = if name == "and" { BinaryOp::I32And } else { BinaryOp::I32Or };
            builder.func.instr_seq(builder.seq).binop(op);
        }
        Ok(())
    }
}

// ---- A standard library ----

const HOST: [(&str, &[ValType], &[ValType]); 18] = [
    ("stdlib.define_function", &[ValType::I32, ValType::I32, ValType::I32], &[]),
    ("stdlib.runtime-error", &[ValType::I32], &[]),
    ("stdlib.begin_public_call", &[], &[]),
    ("stdlib.begin_read_only_call", &[], &[]),
    ("stdlib.commit_call", &[], &[]),
    ("stdlib.roll_back_call", &[], &[]),
    ("stdlib.tx_sender", &[ValType::I32, ValType::I32], &[ValType::I32, ValType::I32]),
    ("stdlib.contract_caller", &[ValType::I32, ValType::I32], &[ValType::I32, ValType::I32]),
    (
        "stdlib.tx_sponsor",
        &[ValType::I32, ValType::I32],
        &[ValType::I32, ValType::I32, ValType::I32],
    ),
    ("stdlib.block_height", &[], &[ValType::I64, ValType::I64]),
    ("stdlib.stacks_block_height", &[], &[ValType::I64, ValType::I64]),
    ("stdlib.tenure_height", &[], &[ValType::I64, ValType::I64]),
    ("stdlib.burn_block_height", &[], &[ValType::I64, ValType::I64]),
    ("stdlib.stx_liquid_supply", &[], &[ValType::I64, ValType::I64]),
    ("stdlib.is_in_regtest", &[], &[ValType::I32]),
    ("stdlib.is_in_mainnet", &[], &[ValType::I32]),
    ("stdlib.chain_id", &[], &[ValType::I64, ValType::I64]),
    ("log", &[ValType::I64], &[]),
];

/// A library with the host's functions, a memory, a stack pointer, and a function that
/// compares bytes.
fn standard_library() -> Vec<u8> {
    let mut module = Module::default();
    for (name, params, results) in HOST {
        let ty = module.types.add(params, results);
        let (function, _) = module.add_import_func("host", name, ty);
        module.funcs.get_mut(function).name = Some(name.to_owned());
    }
    let memory = module.memories.add_local(false, 1, None);
    module.exports.add("memory", memory);
    let init = InitExpr::Value(WasmValue::I32(0));
    let stack_pointer = module.globals.add_local(ValType::I32, true, init);
    module.exports.add("stack-pointer", stack_pointer);

    let i32s = [ValType::I32; 4];
    let mut same = FunctionBuilder::new(&mut module.types, &i32s, &[ValType::I32]);
    same.name("test.same-bytes".to_owned());
    let left = module.locals.add(ValType::I32);
    let left_length = module.locals.add(ValType::I32);
    let right = module.locals.add(ValType::I32);
    let right_length = module.locals.add(ValType::I32);
    let byte = MemArg { align: 1, offset: 0 };
    let kind = LoadKind::I32_8 { kind: walrus::ir::ExtendedLoad::ZeroExtend };
    same.func_body()
        .local_get(left_length)
        .local_get(right_length)
        .binop(BinaryOp::I32Ne)
        .if_else(
            None,
            |different| {
                different.i32_const(0).return_();
            },
            |_| {},
        )
        .block(None, |done| {
            let done_id = done.id();
            done.loop_(None, |again| {
                let again_id = again.id();
                again
                    .local_get(left_length)
                    .unop(walrus::ir::UnaryOp::I32Eqz)
                    .br_if(done_id)
                    .local_get(left)
                    .load(memory, kind, byte)
                    .local_get(right)
                    .load(memory, kind, byte)
                    .binop(BinaryOp::I32Ne)
                    .if_else(
                        None,
                        |different| {
                            different.i32_const(0).return_();
                        },
                        |_| {},
                    );
                for local in [left, right] {
                    again.local_get(local).i32_const(1).binop(BinaryOp::I32Add).local_set(local);
                }
                again
                    .local_get(left_length)
                    .i32_const(1)
                    .binop(BinaryOp::I32Sub)
                    .local_set(left_length)
                    .br(again_id);
            });
        })
        .i32_const(1);
    same.finish(vec![left, left_length, right, right_length], &mut module.funcs);
    let mut wasm = module.emit_wasm();
    wasm.extend(global_name("stack-pointer"));
    wasm
}

/// A section that names the first global.
fn global_name(name: &str) -> Vec<u8> {
    let mut names = vec![1, 0, name.len() as u8];
    names.extend(name.as_bytes());
    let mut content = b"\x04name".to_vec();
    content.extend([7, names.len() as u8]);
    content.extend(names);
    let mut section = vec![0, content.len() as u8];
    section.extend(content);
    section
}

// ---- Running ----

/// What the host saw.
#[derive(Default)]
struct Seen {
    calls: Vec<String>,
    functions: Vec<(i32, String)>,
    errors: Vec<i32>,
    logged: Vec<i64>,
}

/// What a contract left, and what the host saw.
struct Outcome {
    words: Vec<wasmi::Val>,
    seen: Seen,
    memory: Vec<u8>,
    stack_pointer: i32,
    trapped: bool,
}

fn run(module: &mut Module) -> Outcome {
    let engine = wasmi::Engine::default();
    let wasm = wasmi::Module::new(&engine, module.emit_wasm()).expect("the module is valid");
    let mut store = wasmi::Store::new(&engine, Seen::default());
    let mut linker = wasmi::Linker::<Seen>::new(&engine);
    for (name, params, results) in HOST {
        let convert = |ty: &ValType| match ty {
            ValType::I32 => wasmi::ValType::I32,
            _ => wasmi::ValType::I64,
        };
        let ty = wasmi::FuncType::new(params.iter().map(convert), results.iter().map(convert));
        linker
            .func_new("host", name, ty, move |mut caller, inputs, outputs| {
                caller.data_mut().calls.push(name.to_owned());
                let memory = caller.get_export("memory").unwrap().into_memory().unwrap();
                match name {
                    "stdlib.define_function" => {
                        let kind = inputs[0].i32().unwrap();
                        let start = inputs[1].i32().unwrap() as usize;
                        let end = start + inputs[2].i32().unwrap() as usize;
                        let text = memory.data(&caller)[start..end].to_vec();
                        let text = String::from_utf8(text).unwrap();
                        caller.data_mut().functions.push((kind, text));
                    }
                    "stdlib.runtime-error" => {
                        let code = inputs[0].i32().unwrap();
                        caller.data_mut().errors.push(code);
                    }
                    "log" => {
                        let value = inputs[0].i64().unwrap();
                        caller.data_mut().logged.push(value);
                    }
                    "stdlib.tx_sender" | "stdlib.contract_caller" => {
                        let start = inputs[0].i32().unwrap() as usize;
                        memory.data_mut(&mut caller)[start..start + 22].copy_from_slice(&SENDER);
                        outputs[0] = inputs[0].clone();
                        outputs[1] = wasmi::Val::I32(22);
                    }
                    "stdlib.tx_sponsor" => {
                        outputs[0] = wasmi::Val::I32(0);
                        outputs[1] = wasmi::Val::I32(0);
                        outputs[2] = wasmi::Val::I32(0);
                    }
                    "stdlib.is_in_regtest" | "stdlib.is_in_mainnet" => {
                        outputs[0] = wasmi::Val::I32(0);
                    }
                    "stdlib.block_height" => {
                        outputs[0] = wasmi::Val::I64(17);
                        outputs[1] = wasmi::Val::I64(0);
                    }
                    _ => {}
                }
                Ok(())
            })
            .unwrap();
    }
    let instance = linker.instantiate_and_start(&mut store, &wasm).expect("the module links");
    let top_level = instance.get_func(&store, ".top-level").expect("the top level is exported");
    let results = top_level.ty(&store).results().len();
    let mut words = vec![wasmi::Val::I32(0); results];
    let trapped = top_level.call(&mut store, &[], &mut words).is_err();
    let memory = instance.get_memory(&store, "memory").unwrap().data(&store).to_vec();
    let stack_pointer = instance.get_global(&store, "stack-pointer").unwrap().get(&store);
    let stack_pointer = stack_pointer.i32().unwrap();
    Outcome { words, seen: store.into_data(), memory, stack_pointer, trapped }
}

const SENDER: [u8; 22] =
    [26, 1, 2, 3, 4, 5, 6, 7, 8, 9, 10, 11, 12, 13, 14, 15, 16, 17, 18, 19, 20, 0];

/// Takes a value of a type from the front of the words.
fn decode(words: &mut &[wasmi::Val], ty: &TypeSignature, memory: &[u8]) -> Value {
    let mut next = || {
        let (first, rest) = words.split_first().unwrap();
        *words = rest;
        first.clone()
    };
    match ty {
        TypeSignature::BoolType => Value::Bool(next().i32().unwrap() != 0),
        TypeSignature::IntType => {
            let low = next().i64().unwrap() as u64 as i128;
            let high = next().i64().unwrap() as i128;
            Value::Int(high << 64 | low)
        }
        TypeSignature::UIntType => {
            let low = next().i64().unwrap() as u64 as u128;
            let high = next().i64().unwrap() as u64 as u128;
            Value::UInt(high << 64 | low)
        }
        TypeSignature::NoType => {
            next();
            Value::none()
        }
        TypeSignature::ResponseType(inner) => {
            let is_ok = next().i32().unwrap() != 0;
            let ok = decode(words, &inner.0, memory);
            let err = decode(words, &inner.1, memory);
            Value::Response(ResponseData {
                committed: is_ok,
                data: Box::new(if is_ok { ok } else { err }),
            })
        }
        TypeSignature::PrincipalType => {
            let start = next().i32().unwrap() as usize;
            let length = next().i32().unwrap() as usize;
            Value::buff_from(memory[start..start + length].to_vec()).unwrap()
        }
        TypeSignature::SequenceType(SequenceSubtype::StringType(StringSubtype::ASCII(_))) => {
            let start = next().i32().unwrap() as usize;
            let length = next().i32().unwrap() as usize;
            Value::string_ascii_from_bytes(memory[start..start + length].to_vec()).unwrap()
        }
        other => panic!("no value of type {other:?} is expected"),
    }
}

fn generate(contract: &ContractAnalysis) -> Result<Module, GeneratorError> {
    WasmGenerator::new(convert(contract), &standard_library())?.generate(&TestWords)
}

/// What a contract leaves, and what the host saw of it.
fn evaluate_at(
    snippet: &str,
    epoch: StacksEpochId,
    version: ClarityVersion,
) -> Result<(Option<Value>, Outcome), GeneratorError> {
    let contract = analyse(snippet, epoch, version);
    let mut module = generate(&contract)?;
    let outcome = run(&mut module);
    let map = contract.type_map.as_ref().unwrap();
    let ty = contract.expressions.iter().rev().find_map(|expr| map.get_type(expr));
    let value = match ty {
        Some(ty) if !outcome.trapped => {
            let mut words: &[wasmi::Val] = &outcome.words;
            let value = decode(&mut words, ty, &outcome.memory);
            assert!(words.is_empty());
            Some(value)
        }
        _ => None,
    };
    Ok((value, outcome))
}

fn evaluate(snippet: &str) -> (Option<Value>, Outcome) {
    evaluate_at(snippet, StacksEpochId::latest(), ClarityVersion::latest()).unwrap()
}

fn crosscheck(snippet: &str, expected: Option<Value>) {
    assert_eq!(evaluate(snippet).0, expected);
}

#[test]
fn is_in_mainnet() {
    crosscheck(
        "
(define-public (mainnet)
  (ok is-in-mainnet))

(mainnet)
",
        Some(Value::okay(Value::Bool(false)).unwrap()),
    );
}

#[test]
fn is_in_regtest() {
    crosscheck(
        "
(define-public (regtest)
  (ok is-in-regtest))

(regtest)
",
        Some(Value::okay(Value::Bool(false)).unwrap()),
    );
}

#[test]
fn should_set_memory_pages() {
    let string_size = 262000;
    let a = "a".repeat(string_size);
    let b = "b".repeat(string_size);
    let c = "c".repeat(string_size);
    let d = "d".repeat(string_size);

    let snippet = format!("(is-eq u\"{}\" u\"{}\" u\"{}\" u\"{}\")", a, b, c, d);
    crosscheck(&snippet, Some(Value::Bool(false)));
}

#[test]
fn function_argument_have_correct_type() {
    let snippet = r#"
            (define-private (foo (arg (optional uint)))
                true
            )

            (foo none)
        "#;
    crosscheck(snippet, Some(Value::Bool(true)));

    // The type checker of an early epoch leaves the argument without its full type.
    assert!(evaluate_at(snippet, StacksEpochId::Epoch20, ClarityVersion::latest()).is_ok());
}

#[test]
fn top_level_result_none() {
    crosscheck(
        "
(define-public (foo)
  (ok true))

(define-public (bar)
  (ok true))
",
        None,
    );
}

#[test]
fn top_level_result_some_last() {
    crosscheck(
        "
(define-private (foo) 42)
(define-public (bar)
  (ok true))
(foo)
",
        Some(Value::Int(42)),
    );
}

#[test]
fn top_level_result_some_not_last() {
    crosscheck(
        "
(define-public (foo)
  (ok true))
(foo)
(define-public (bar)
  (ok true))
",
        Some(Value::okay(Value::Bool(true)).unwrap()),
    );
}

#[test]
fn functions_are_announced_to_the_host() {
    let (_, outcome) = evaluate(
        "
(define-read-only (first) 1)
(define-public (second) (ok 2))
(define-private (third) 3)
",
    );
    assert_eq!(
        outcome.seen.functions,
        vec![(0, "first".to_owned()), (1, "second".to_owned()), (2, "third".to_owned())],
    );
}

#[test]
fn ok_result_of_a_public_call_is_committed() {
    let (value, outcome) = evaluate("(define-public (foo) (ok 5)) (foo)");
    assert_eq!(value, Some(Value::okay(Value::Int(5)).unwrap()));
    let calls: Vec<&str> = outcome.seen.calls.iter().map(String::as_str).collect();
    assert_eq!(
        calls,
        vec!["stdlib.define_function", "stdlib.begin_public_call", "stdlib.commit_call"],
    );
}

#[test]
fn err_result_of_a_public_call_is_rolled_back() {
    let (value, outcome) = evaluate("(define-public (foo) (err 5)) (foo)");
    assert_eq!(value, Some(Value::error(Value::Int(5)).unwrap()));
    let calls: Vec<&str> = outcome.seen.calls.iter().map(String::as_str).collect();
    assert_eq!(
        calls,
        vec!["stdlib.define_function", "stdlib.begin_public_call", "stdlib.roll_back_call"],
    );
}

#[test]
fn read_only_call_is_rolled_back() {
    let (value, outcome) = evaluate("(define-read-only (foo) u7) (foo)");
    assert_eq!(value, Some(Value::UInt(7)));
    let calls: Vec<&str> = outcome.seen.calls.iter().map(String::as_str).collect();
    assert_eq!(
        calls,
        vec!["stdlib.define_function", "stdlib.begin_read_only_call", "stdlib.roll_back_call"],
    );
}

#[test]
fn private_call_does_not_go_through_the_host() {
    let (value, outcome) = evaluate("(define-private (foo (a int) (b int)) b) (foo 1 -2)");
    assert_eq!(value, Some(Value::Int(-2)));
    assert_eq!(outcome.seen.calls, vec!["stdlib.define_function".to_owned()]);
}

#[test]
fn numbers_are_pushed_whole() {
    crosscheck("1", Some(Value::Int(1)));
    crosscheck("-1", Some(Value::Int(-1)));
    let least = i128::MIN.to_string();
    crosscheck(&least, Some(Value::Int(i128::MIN)));
    let greatest = format!("u{}", u128::MAX);
    crosscheck(&greatest, Some(Value::UInt(u128::MAX)));
    crosscheck("18446744073709551616", Some(Value::Int(1 << 64)));
}

#[test]
fn string_result_is_copied_to_the_callers_frame() {
    let (value, outcome) = evaluate(r#"(define-private (foo) "hello") (foo)"#);
    assert_eq!(value, Some(Value::string_ascii_from_bytes(b"hello".to_vec()).unwrap()));
    // The literals are the name and the string; the copy comes after them.
    let end = END_OF_STANDARD_DATA as usize + 3 + 5;
    assert_eq!(&outcome.memory[end..end + 5], b"hello");
    assert_eq!(outcome.words[0].i32(), Some(end as i32));
    assert_eq!(outcome.stack_pointer, end as i32 + 5);
}

#[test]
fn string_is_stored_once() {
    let (_, outcome) = evaluate(r#"(is-eq "abc" "abc" "xabc")"#);
    let found = outcome.memory.windows(3).filter(|bytes| *bytes == b"abc").count();
    assert_eq!(found, 2);
}

#[test]
fn equal_strings_are_equal() {
    crosscheck(r#"(is-eq u"sol\u{e9}" u"sol\u{e9}")"#, Some(Value::Bool(true)));
}

#[test]
fn sender_is_put_on_the_call_stack() {
    let (value, outcome) = evaluate("tx-sender");
    assert_eq!(value, Some(Value::buff_from(SENDER.to_vec()).unwrap()));
    assert_eq!(outcome.stack_pointer, END_OF_STANDARD_DATA as i32 + 150);
}

#[test]
fn function_leaves_the_stack_pointer_as_it_found_it() {
    let (value, outcome) =
        evaluate("(define-private (foo) (is-eq tx-sender contract-caller)) (foo)");
    assert_eq!(value, Some(Value::Bool(true)));
    // The literal is the name of the function.
    assert_eq!(outcome.stack_pointer, END_OF_STANDARD_DATA as i32 + 3);
}

#[test]
fn block_height_comes_from_the_host() {
    crosscheck("block-height", Some(Value::UInt(17)));
}

#[test]
fn words_are_visited_with_their_arguments() {
    crosscheck("(not true)", Some(Value::Bool(false)));
    crosscheck("(and true)", Some(Value::Bool(true)));
    crosscheck("(and true true false)", Some(Value::Bool(false)));
    crosscheck("(or false false true)", Some(Value::Bool(true)));
}

#[test]
fn earlier_values_are_dropped() {
    crosscheck("1 2 (begin true 3)", Some(Value::Int(3)));
}

#[test]
fn early_return_leaves_the_function() {
    crosscheck(
        "(define-public (foo (a bool)) (begin (asserts! a (err 1)) (ok true))) (foo false)",
        Some(Value::error(Value::Int(1)).unwrap()),
    );
    crosscheck(
        "(define-public (foo (a bool)) (begin (asserts! a (err 1)) (ok true))) (foo true)",
        Some(Value::okay(Value::Bool(true)).unwrap()),
    );
}

#[test]
fn stack_pointer_is_restored_on_both_ways_out() {
    let body = "(begin tx-sender (asserts! go (err u1)) (ok u2))";
    let function = format!("(define-private (f (go bool)) {body})");
    let end = END_OF_STANDARD_DATA as i32 + 1;
    for (argument, expected) in [
        ("true", Value::okay(Value::UInt(2)).unwrap()),
        ("false", Value::error(Value::UInt(1)).unwrap()),
    ] {
        let (value, outcome) = evaluate(&format!("{function} (f {argument})"));
        assert_eq!(value, Some(expected));
        assert!(outcome.seen.calls.contains(&"stdlib.tx_sender".to_owned()));
        assert_eq!(outcome.stack_pointer, end);
    }
}

#[test]
fn name_of_a_function_is_no_string() {
    let (value, outcome) = evaluate("(define-private (f) (is-eq \"f\" \"f\")) (f)");
    assert_eq!(value, Some(Value::Bool(true)));
    assert_eq!(outcome.seen.functions, vec![(2, "f".to_owned())]);
    let start = END_OF_STANDARD_DATA as usize;
    assert_eq!(outcome.memory[start..start + 2], *b"ff");
    assert_eq!(outcome.stack_pointer, END_OF_STANDARD_DATA as i32 + 2);
}

#[test]
fn arguments_print_as_the_parser_prints_them() {
    let snippet = "(define-private (f (x int) (y bool)) x) (f 3 true)";
    let contract = analyse(snippet, StacksEpochId::latest(), ClarityVersion::latest());
    let converted = convert(&contract);
    let list = &contract.expressions[1].match_list().unwrap()[1..];
    let call = &converted.expressions[1..];
    let args = &call.get_list(0).unwrap()[1..];
    assert_eq!(
        args.get_expr(2).unwrap_err().message(),
        format!("Internal error: {list:?} does not have an argument of index 2"),
    );
    assert_eq!(
        args.get_name(0).unwrap_err().message(),
        format!("Internal error: {list:?} does not have a name at argument index 0"),
    );
}

#[test]
fn early_return_at_the_top_level_stops_the_contract() {
    let (value, outcome) = evaluate("(asserts! false (err 1))");
    assert_eq!(value, None);
    assert!(outcome.trapped);
    assert_eq!(outcome.seen.errors, vec![7]);
}

#[test]
fn call_of_unknown_function_is_refused() {
    let contract = analyse("(+ 1 2)", StacksEpochId::latest(), ClarityVersion::latest());
    let error = generate(&contract).unwrap_err();
    assert_eq!(error.message(), "Type error: function not found: +");
}

#[test]
fn without_words_every_list_is_a_call() {
    let contract = analyse("(not true)", StacksEpochId::latest(), ClarityVersion::latest());
    let generator = WasmGenerator::new(convert(&contract), &standard_library()).unwrap();
    let error = generator.generate(&NoWords).unwrap_err();
    assert_eq!(error.message(), "Type error: function not found: not");
}
