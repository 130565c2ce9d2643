//! Types: their representation, their sizes, the order of their fields.
use std::rc::Rc;

use clar2wasm::ir::WasmType;
use clar2wasm::layout::{
    clar2wasm_ty, get_type_in_memory_size, get_type_size, is_in_memory_type,
    type_from_sequence_element, SequenceElementType, PRINCIPAL_BYTES_MAX,
};
use clar2wasm::types::{
    is_value, ListTypeData, SequenceSubtype, StringSubtype, TupleTypeSignature, TypeSignature,
};

fn optional(inner: TypeSignature) -> TypeSignature {
    TypeSignature::OptionalType(Box::new(inner))
}

fn response(ok: TypeSignature, err: TypeSignature) -> TypeSignature {
    TypeSignature::ResponseType(Box::new((ok, err)))
}

fn list(max_len: u32, entry: TypeSignature) -> TypeSignature {
    let entry_type = Rc::new(entry);
    TypeSignature::SequenceType(SequenceSubtype::ListType(ListTypeData { max_len, entry_type }))
}

fn buffer(length: u32) -> TypeSignature {
    TypeSignature::SequenceType(SequenceSubtype::BufferType(length))
}

fn tuple(fields: Vec<(&str, TypeSignature)>) -> TypeSignature {
    let mut tuple = TupleTypeSignature::new();
    for (name, ty) in fields {
        tuple.insert(name.to_owned(), ty);
    }
    TypeSignature::TupleType(tuple)
}

fn names(ty: &TypeSignature) -> Vec<&str> {
    match ty {
        TypeSignature::TupleType(tuple) => tuple.fields().iter().map(|f| f.0.as_str()).collect(),
        _ => panic!("not a tuple"),
    }
}

#[test]
fn representation_of_each_type() {
    let i32_ = WasmType::I32;
    let i64_ = WasmType::I64;
    assert_eq!(clar2wasm_ty(&TypeSignature::NoType), vec![i32_]);
    assert_eq!(clar2wasm_ty(&TypeSignature::BoolType), vec![i32_]);
    assert_eq!(clar2wasm_ty(&TypeSignature::IntType), vec![i64_, i64_]);
    assert_eq!(clar2wasm_ty(&TypeSignature::UIntType), vec![i64_, i64_]);
    assert_eq!(clar2wasm_ty(&TypeSignature::PrincipalType), vec![i32_, i32_]);
    assert_eq!(clar2wasm_ty(&TypeSignature::CallableType), vec![i32_, i32_]);
    assert_eq!(clar2wasm_ty(&TypeSignature::TraitReferenceType), vec![i32_, i32_]);
    assert_eq!(clar2wasm_ty(&TypeSignature::ListUnionType), vec![i32_, i32_]);
    assert_eq!(clar2wasm_ty(&list(3, TypeSignature::IntType)), vec![i32_, i32_]);
    assert_eq!(clar2wasm_ty(&optional(TypeSignature::UIntType)), vec![i32_, i64_, i64_]);
    assert_eq!(
        clar2wasm_ty(&response(TypeSignature::BoolType, TypeSignature::IntType)),
        vec![i32_, i32_, i64_, i64_],
    );
    assert_eq!(
        clar2wasm_ty(&tuple(vec![("b", TypeSignature::IntType), ("a", TypeSignature::BoolType)])),
        vec![i32_, i64_, i64_],
    );
}

#[test]
fn sizes_of_representations() {
    assert_eq!(get_type_size(&TypeSignature::IntType), 16);
    assert_eq!(get_type_size(&TypeSignature::BoolType), 4);
    assert_eq!(get_type_size(&TypeSignature::NoType), 4);
    assert_eq!(get_type_size(&TypeSignature::PrincipalType), 8);
    assert_eq!(get_type_size(&buffer(1000)), 8);
    assert_eq!(get_type_size(&optional(TypeSignature::IntType)), 20);
    assert_eq!(get_type_size(&response(TypeSignature::BoolType, buffer(1))), 16);
    let fields = vec![("x", TypeSignature::IntType), ("y", TypeSignature::BoolType)];
    assert_eq!(get_type_size(&tuple(fields)), 20);
}

#[test]
fn size_is_the_sum_of_the_words() {
    let ty = tuple(vec![
        ("x", optional(response(TypeSignature::UIntType, TypeSignature::NoType))),
        ("y", list(7, TypeSignature::BoolType)),
        ("z", TypeSignature::PrincipalType),
    ]);
    let words: i32 = clar2wasm_ty(&ty)
        .iter()
        .map(|word| if *word == WasmType::I64 { 8 } else { 4 })
        .sum();
    assert_eq!(get_type_size(&ty), words);
}

#[test]
fn sizes_in_memory() {
    assert_eq!(PRINCIPAL_BYTES_MAX, 1 + 20 + 1 + 128);
    assert_eq!(get_type_in_memory_size(&TypeSignature::IntType, false), 16);
    assert_eq!(get_type_in_memory_size(&TypeSignature::NoType, false), 4);
    assert_eq!(get_type_in_memory_size(&TypeSignature::PrincipalType, false), 150);
    assert_eq!(get_type_in_memory_size(&TypeSignature::PrincipalType, true), 158);
    assert_eq!(get_type_in_memory_size(&buffer(33), false), 33);
    assert_eq!(get_type_in_memory_size(&buffer(33), true), 41);
    let ascii = TypeSignature::SequenceType(SequenceSubtype::StringType(StringSubtype::ASCII(5)));
    assert_eq!(get_type_in_memory_size(&ascii, true), 13);
    let utf8 = TypeSignature::SequenceType(SequenceSubtype::StringType(StringSubtype::UTF8(5)));
    assert_eq!(get_type_in_memory_size(&utf8, false), 20);
    assert_eq!(get_type_in_memory_size(&list(3, buffer(10)), false), 24);
    assert_eq!(get_type_in_memory_size(&list(3, buffer(10)), true), 8 + 3 * 18);
    assert_eq!(get_type_in_memory_size(&optional(buffer(10)), true), 22);
    assert_eq!(
        get_type_in_memory_size(&response(TypeSignature::BoolType, buffer(10)), false),
        18,
    );
    assert_eq!(
        get_type_in_memory_size(&tuple(vec![("a", buffer(10)), ("b", buffer(20))]), true),
        46,
    );
}

#[test]
fn list_without_elements_takes_nothing() {
    let huge = list(u32::MAX, list(u32::MAX, TypeSignature::IntType));
    assert_eq!(get_type_in_memory_size(&list(0, huge), false), 0);
}

#[test]
fn types_that_stay_in_memory() {
    assert!(is_in_memory_type(&TypeSignature::PrincipalType));
    assert!(is_in_memory_type(&TypeSignature::CallableType));
    assert!(is_in_memory_type(&TypeSignature::TraitReferenceType));
    assert!(is_in_memory_type(&buffer(1)));
    assert!(!is_in_memory_type(&TypeSignature::NoType));
    assert!(!is_in_memory_type(&TypeSignature::IntType));
    assert!(!is_in_memory_type(&TypeSignature::UIntType));
    assert!(!is_in_memory_type(&TypeSignature::BoolType));
    assert!(!is_in_memory_type(&optional(buffer(1))));
    assert!(!is_in_memory_type(&response(buffer(1), buffer(1))));
    assert!(!is_in_memory_type(&tuple(vec![("a", buffer(1))])));
}

#[test]
fn types_that_hold_values() {
    assert!(is_value(&optional(TypeSignature::NoType)));
    assert!(is_value(&list(2, TypeSignature::ListUnionType)));
    assert!(!is_value(&TypeSignature::ListUnionType));
    assert!(!is_value(&optional(TypeSignature::ListUnionType)));
    assert!(!is_value(&response(TypeSignature::BoolType, TypeSignature::ListUnionType)));
    let fields = vec![("a", TypeSignature::BoolType), ("b", TypeSignature::ListUnionType)];
    assert!(!is_value(&tuple(fields)));
}

#[test]
fn elements_of_sequences_as_types() {
    let byte = type_from_sequence_element(&SequenceElementType::Byte);
    assert!(matches!(&*byte, TypeSignature::SequenceType(SequenceSubtype::BufferType(1))));
    let scalar = type_from_sequence_element(&SequenceElementType::UnicodeScalar);
    assert!(matches!(
        &*scalar,
        TypeSignature::SequenceType(SequenceSubtype::StringType(StringSubtype::UTF8(1)))
    ));
    let entry = Rc::new(TypeSignature::IntType);
    let other = type_from_sequence_element(&SequenceElementType::Other(entry.clone()));
    assert!(Rc::ptr_eq(&entry, &other));
}

#[test]
fn fields_are_in_the_order_of_their_names() {
    let ty = tuple(vec![
        ("b", TypeSignature::IntType),
        ("ab", TypeSignature::BoolType),
        ("a", TypeSignature::NoType),
        ("c", TypeSignature::UIntType),
        ("a-b", TypeSignature::PrincipalType),
    ]);
    assert_eq!(names(&ty), vec!["a", "a-b", "ab", "b", "c"]);
}

#[test]
fn field_that_is_there_gets_the_new_type() {
    let ty = tuple(vec![
        ("a", TypeSignature::IntType),
        ("b", TypeSignature::BoolType),
        ("a", TypeSignature::NoType),
    ]);
    assert_eq!(names(&ty), vec!["a", "b"]);
    assert_eq!(get_type_size(&ty), 8);
}
