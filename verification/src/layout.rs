//! How values of Clarity types are laid out on the WebAssembly stack and in memory.
use std::rc::Rc;
use vstd::prelude::*;

use crate::builder::InstrSeqBuilder;
use crate::ir::{group_emit, lemma_emit_all_nothing, Op, WasmType};
use crate::types::{
    is_value_type, share, ListTypeData, SequenceSubtype, StringSubtype, TypeSignature,
};

verus! {

broadcast use group_emit;

/// The most bytes that a principal takes: a version, a hash, the length of a contract
/// name and a contract name of the greatest length.
pub const PRINCIPAL_BYTES_MAX: u32 = 150;

/// The types of the stack values that represent a value of a Clarity type, the top of
/// the stack last.
pub open spec fn wasm_repr(ty: TypeSignature) -> Seq<WasmType>
    decreases ty, 0int,
{
    match ty {
        TypeSignature::NoType | TypeSignature::BoolType => seq![WasmType::I32],
        // The low half, then the high half.
        TypeSignature::IntType | TypeSignature::UIntType => seq![WasmType::I64, WasmType::I64],
        // Where the value is in memory, then its length.
        TypeSignature::SequenceType(_)
        | TypeSignature::ListUnionType
        | TypeSignature::PrincipalType
        | TypeSignature::CallableType
        | TypeSignature::TraitReferenceType => seq![WasmType::I32, WasmType::I32],
        // An indicator, then the value.
        TypeSignature::OptionalType(inner) => seq![WasmType::I32] + wasm_repr(*inner),
        // An indicator, then the `ok` value, then the `err` value.
        TypeSignature::ResponseType(inner) => seq![WasmType::I32] + wasm_repr(inner.0) + wasm_repr(
            inner.1,
        ),
        TypeSignature::TupleType(tuple) => fields_repr(tuple@, tuple@.len()),
    }
}

/// The types of the stack values for the first `n` fields of a tuple.
pub open spec fn fields_repr(fields: Seq<(String, TypeSignature)>, n: nat) -> Seq<WasmType>
    decreases fields, n,
{
    if n == 0 || n > fields.len() {
        Seq::empty()
    } else {
        fields_repr(fields, (n - 1) as nat) + wasm_repr(fields[n - 1].1)
    }
}

/// The number of bytes that the representation of a value takes in memory. For a value
/// that stays in memory itself, that is its offset and its length.
pub open spec fn type_size(ty: TypeSignature) -> nat
    decreases ty, 0int,
{
    match ty {
        TypeSignature::IntType | TypeSignature::UIntType => 16,
        TypeSignature::BoolType | TypeSignature::NoType => 4,
        TypeSignature::PrincipalType
        | TypeSignature::SequenceType(_)
        | TypeSignature::CallableType
        | TypeSignature::TraitReferenceType => 8,
        TypeSignature::OptionalType(inner) => 4 + type_size(*inner),
        TypeSignature::ResponseType(inner) => 4 + type_size(inner.0) + type_size(inner.1),
        TypeSignature::TupleType(tuple) => fields_size(tuple@, tuple@.len()),
        TypeSignature::ListUnionType => 0,
    }
}

/// The number of bytes that the first `n` fields of a tuple take.
pub open spec fn fields_size(fields: Seq<(String, TypeSignature)>, n: nat) -> nat
    decreases fields, n,
{
    if n == 0 || n > fields.len() {
        0
    } else {
        fields_size(fields, (n - 1) as nat) + type_size(fields[n - 1].1)
    }
}

/// The offset and the length of a value that stays in memory, where they are counted.
pub open spec fn repr_bytes(include_repr: bool) -> nat {
    if include_repr {
        8
    } else {
        0
    }
}

/// The number of bytes that a value itself takes in memory at most. `include_repr` adds
/// the offset and the length of each value that stays in memory.
pub open spec fn in_memory_size(ty: TypeSignature, include_repr: bool) -> nat
    decreases ty, 0int,
{
    match ty {
        TypeSignature::IntType | TypeSignature::UIntType => 16,
        TypeSignature::BoolType | TypeSignature::NoType => 4,
        TypeSignature::PrincipalType
        | TypeSignature::CallableType
        | TypeSignature::TraitReferenceType => PRINCIPAL_BYTES_MAX as nat + repr_bytes(
            include_repr,
        ),
        TypeSignature::SequenceType(SequenceSubtype::BufferType(length)) => length as nat
            + repr_bytes(include_repr),
        TypeSignature::SequenceType(SequenceSubtype::StringType(StringSubtype::ASCII(length))) =>
            length as nat + repr_bytes(include_repr),
        TypeSignature::SequenceType(SequenceSubtype::StringType(StringSubtype::UTF8(length))) => 4
            * length as nat + repr_bytes(include_repr),
        TypeSignature::SequenceType(SequenceSubtype::ListType(list)) => if include_repr {
            8 + list.max_len as nat * in_memory_size(*list.entry_type, true)
        } else {
            list.max_len as nat * type_size(*list.entry_type)
        },
        TypeSignature::OptionalType(inner) => 4 + in_memory_size(*inner, include_repr),
        TypeSignature::ResponseType(inner) => 4 + in_memory_size(inner.0, include_repr)
            + in_memory_size(inner.1, include_repr),
        TypeSignature::TupleType(tuple) => fields_in_memory_size(
            tuple@,
            tuple@.len(),
            include_repr,
        ),
        TypeSignature::ListUnionType => 0,
    }
}

/// The number of bytes that the first `n` fields of a tuple themselves take at most.
pub open spec fn fields_in_memory_size(
    fields: Seq<(String, TypeSignature)>,
    n: nat,
    include_repr: bool,
) -> nat
    decreases fields, n,
{
    if n == 0 || n > fields.len() {
        0
    } else {
        fields_in_memory_size(fields, (n - 1) as nat, include_repr) + in_memory_size(
            fields[n - 1].1,
            include_repr,
        )
    }
}

/// Whether a value of the type can exist at run time, and so can the elements of the
/// lists in it that `in_memory_size` counts.
pub open spec fn has_in_memory_size(ty: TypeSignature, include_repr: bool) -> bool
    decreases ty, 0int,
{
    match ty {
        TypeSignature::ListUnionType => false,
        TypeSignature::SequenceType(SequenceSubtype::ListType(list)) => if include_repr {
            has_in_memory_size(*list.entry_type, true)
        } else {
            is_value_type(*list.entry_type)
        },
        TypeSignature::OptionalType(inner) => has_in_memory_size(*inner, include_repr),
        TypeSignature::ResponseType(inner) => has_in_memory_size(inner.0, include_repr)
            && has_in_memory_size(inner.1, include_repr),
        TypeSignature::TupleType(tuple) => fields_have_in_memory_size(
            tuple@,
            tuple@.len(),
            include_repr,
        ),
        _ => true,
    }
}

/// Whether the first `n` fields of a tuple have a size in memory.
pub open spec fn fields_have_in_memory_size(
    fields: Seq<(String, TypeSignature)>,
    n: nat,
    include_repr: bool,
) -> bool
    decreases fields, n,
{
    n == 0 || n > fields.len() || (fields_have_in_memory_size(
        fields,
        (n - 1) as nat,
        include_repr,
    ) && has_in_memory_size(fields[n - 1].1, include_repr))
}

/// Whether a value of the type is represented by its place in memory.
pub open spec fn stays_in_memory(ty: TypeSignature) -> bool {
    ty is SequenceType || ty is PrincipalType || ty is CallableType || ty is TraitReferenceType
}

/// A size, where it does not go beyond what an `i32` holds.
pub open spec fn small_size(size: nat) -> Option<nat> {
    if size <= i32::MAX {
        Some(size)
    } else {
        None
    }
}

/// The sum of two sizes, where it is small.
fn add_sizes(left: u32, right: u32) -> (sum: Option<u32>)
    requires
        left <= i32::MAX,
        right <= i32::MAX,
    ensures
        match sum {
            Some(size) => size == left + right && size <= i32::MAX,
            None => left + right > i32::MAX,
        },
{
    let size: u32 = left + right;
    if size <= 0x7fff_ffff {
        Some(size)
    } else {
        None
    }
}

/// The product of a count and a size, where it is small.
fn multiply_size(count: u32, size: u32) -> (product: Option<u32>)
    ensures
        match product {
            Some(total) => total == count * size && total <= i32::MAX,
            None => count * size > i32::MAX,
        },
{
    assert(count * size <= u32::MAX * u32::MAX) by (nonlinear_arith)
        requires
            count <= u32::MAX,
            size <= u32::MAX,
    ;
    let total: u64 = count as u64 * size as u64;
    if total <= 0x7fff_ffff {
        Some(total as u32)
    } else {
        None
    }
}

/// A tuple takes at least the bytes of its first fields.
pub proof fn lemma_fields_size_grows(fields: Seq<(String, TypeSignature)>, n: nat, m: nat)
    requires
        n <= m <= fields.len(),
    ensures
        fields_size(fields, n) <= fields_size(fields, m),
    decreases m,
{
    if n < m {
        lemma_fields_size_grows(fields, n, (m - 1) as nat);
    }
}

/// A tuple itself takes at least the bytes of its first fields.
proof fn lemma_fields_in_memory_size_grows(
    fields: Seq<(String, TypeSignature)>,
    n: nat,
    m: nat,
    include_repr: bool,
)
    requires
        n <= m <= fields.len(),
    ensures
        fields_in_memory_size(fields, n, include_repr) <= fields_in_memory_size(
            fields,
            m,
            include_repr,
        ),
    decreases m,
{
    if n < m {
        lemma_fields_in_memory_size_grows(fields, n, (m - 1) as nat, include_repr);
    }
}

/// The size of a type, where it is small.
fn checked_type_size(ty: &TypeSignature) -> (size: Option<u32>)
    ensures
        match size {
            Some(bytes) => small_size(type_size(*ty)) == Some(bytes as nat),
            None => small_size(type_size(*ty)) is None,
        },
    decreases *ty, 0int,
{
    match ty {
        TypeSignature::IntType | TypeSignature::UIntType => Some(16),
        TypeSignature::BoolType | TypeSignature::NoType => Some(4),
        TypeSignature::PrincipalType
        | TypeSignature::SequenceType(_)
        | TypeSignature::CallableType
        | TypeSignature::TraitReferenceType => Some(8),
        TypeSignature::OptionalType(inner) => add_sizes(4, checked_type_size(inner)?),
        TypeSignature::ResponseType(inner) => {
            let ok_size: u32 = add_sizes(4, checked_type_size(&inner.0)?)?;
            add_sizes(ok_size, checked_type_size(&inner.1)?)
        },
        TypeSignature::TupleType(tuple) => checked_fields_size(tuple.fields()),
        TypeSignature::ListUnionType => Some(0),
    }
}

/// The size of all fields of a tuple, where it is small.
fn checked_fields_size(fields: &Vec<(String, TypeSignature)>) -> (size: Option<u32>)
    ensures
        match size {
            Some(bytes) => small_size(fields_size(fields@, fields@.len())) == Some(bytes as nat),
            None => small_size(fields_size(fields@, fields@.len())) is None,
        },
    decreases fields@, fields@.len(),
{
    let mut total: u32 = 0;
    let mut i: usize = 0;
    while i < fields.len()
        invariant
            i <= fields@.len(),
            total == fields_size(fields@, i as nat),
            total <= i32::MAX,
        decreases fields@.len() - i,
    {
        proof {
            lemma_fields_size_grows(fields@, (i + 1) as nat, fields@.len());
        }
        total = add_sizes(total, checked_type_size(&fields[i].1)?)?;
        i += 1;
    }
    Some(total)
}

/// The number of bytes that the representation of a value of type `ty` takes. For a
/// value that stays in memory, that is its offset and its length.
pub fn get_type_size(ty: &TypeSignature) -> (size: i32)
    requires
        is_value_type(*ty),
        type_size(*ty) <= i32::MAX,
    ensures
        size == type_size(*ty),
{
    match checked_type_size(ty) {
        Some(size) => size as i32,
        None => 0,
    }
}

/// The number of bytes that one element of a list takes.
spec fn entry_size(list: ListTypeData, include_repr: bool) -> nat {
    if include_repr {
        in_memory_size(*list.entry_type, true)
    } else {
        type_size(*list.entry_type)
    }
}

/// A list takes nothing where it cannot have elements, else at least what one takes.
proof fn lemma_list_size(list: ListTypeData, include_repr: bool)
    ensures
        list.max_len == 0 ==> list.max_len * entry_size(list, include_repr) == 0,
        list.max_len > 0 ==> list.max_len * entry_size(list, include_repr) >= entry_size(
            list,
            include_repr,
        ),
{
    let entry = entry_size(list, include_repr);
    if list.max_len > 0 {
        assert(list.max_len * entry >= entry) by (nonlinear_arith)
            requires
                list.max_len >= 1,
                entry >= 0,
        ;
    } else {
        assert(list.max_len * entry == 0) by (nonlinear_arith)
            requires
                list.max_len == 0,
        ;
    }
}

/// The size of a value itself in memory, where it is small.
fn checked_in_memory_size(ty: &TypeSignature, include_repr: bool) -> (size: Option<u32>)
    ensures
        match size {
            Some(bytes) => small_size(in_memory_size(*ty, include_repr)) == Some(bytes as nat),
            None => small_size(in_memory_size(*ty, include_repr)) is None,
        },
    decreases *ty, 0int,
{
    let repr: u32 = if include_repr {
        8
    } else {
        0
    };
    match ty {
        TypeSignature::IntType | TypeSignature::UIntType => Some(16),
        TypeSignature::BoolType | TypeSignature::NoType => Some(4),
        TypeSignature::PrincipalType
        | TypeSignature::CallableType
        | TypeSignature::TraitReferenceType => Some(PRINCIPAL_BYTES_MAX + repr),
        TypeSignature::SequenceType(SequenceSubtype::BufferType(length)) => add_sizes(
            repr,
            multiply_size(1, *length)?,
        ),
        TypeSignature::SequenceType(SequenceSubtype::StringType(StringSubtype::ASCII(length))) =>
            add_sizes(repr, multiply_size(1, *length)?),
        TypeSignature::SequenceType(SequenceSubtype::StringType(StringSubtype::UTF8(length))) =>
            add_sizes(repr, multiply_size(4, *length)?),
        TypeSignature::SequenceType(SequenceSubtype::ListType(list)) => {
            proof {
                lemma_list_size(*list, include_repr);
            }
            if list.max_len == 0 {
                return Some(repr);
            }
            let entry: u32 = if include_repr {
                checked_in_memory_size(&list.entry_type, true)?
            } else {
                checked_type_size(&list.entry_type)?
            };
            add_sizes(repr, multiply_size(list.max_len, entry)?)
        },
        TypeSignature::OptionalType(inner) => add_sizes(
            4,
            checked_in_memory_size(inner, include_repr)?,
        ),
        TypeSignature::ResponseType(inner) => {
            let ok_size: u32 = add_sizes(4, checked_in_memory_size(&inner.0, include_repr)?)?;
            add_sizes(ok_size, checked_in_memory_size(&inner.1, include_repr)?)
        },
        TypeSignature::TupleType(tuple) => checked_fields_in_memory_size(
            tuple.fields(),
            include_repr,
        ),
        TypeSignature::ListUnionType => Some(0),
    }
}

/// The size of all fields of a tuple themselves in memory, where it is small.
fn checked_fields_in_memory_size(
    fields: &Vec<(String, TypeSignature)>,
    include_repr: bool,
) -> (size: Option<u32>)
    ensures
        match size {
            Some(bytes) => small_size(
                fields_in_memory_size(fields@, fields@.len(), include_repr),
            ) == Some(bytes as nat),
            None => small_size(
                fields_in_memory_size(fields@, fields@.len(), include_repr),
            ) is None,
        },
    decreases fields@, fields@.len(),
{
    let mut total: u32 = 0;
    let mut i: usize = 0;
    while i < fields.len()
        invariant
            i <= fields@.len(),
            total == fields_in_memory_size(fields@, i as nat, include_repr),
            total <= i32::MAX,
        decreases fields@.len() - i,
    {
        proof {
            lemma_fields_in_memory_size_grows(
                fields@,
                (i + 1) as nat,
                fields@.len(),
                include_repr,
            );
        }
        total = add_sizes(total, checked_in_memory_size(&fields[i].1, include_repr)?)?;
        i += 1;
    }
    Some(total)
}

/// The number of bytes that a value of type `ty` itself takes in memory at most.
/// `include_repr` adds the offset and the length of each value that stays in memory.
pub fn get_type_in_memory_size(ty: &TypeSignature, include_repr: bool) -> (size: i32)
    requires
        has_in_memory_size(*ty, include_repr),
        in_memory_size(*ty, include_repr) <= i32::MAX,
    ensures
        size == in_memory_size(*ty, include_repr),
{
    match checked_in_memory_size(ty, include_repr) {
        Some(size) => size as i32,
        None => 0,
    }
}

/// Whether a value of type `ty` stays in memory, and is not itself on the stack.
pub fn is_in_memory_type(ty: &TypeSignature) -> (result: bool)
    requires
        ty !is ListUnionType,
    ensures
        result == stays_in_memory(*ty),
{
    match ty {
        TypeSignature::SequenceType(_)
        | TypeSignature::PrincipalType
        | TypeSignature::CallableType
        | TypeSignature::TraitReferenceType => true,
        _ => false,
    }
}

/// The types of the stack values that represent a value of type `ty`, the top of the
/// stack last.
pub fn clar2wasm_ty(ty: &TypeSignature) -> (types: Vec<WasmType>)
    ensures
        types@ == wasm_repr(*ty),
    decreases *ty, 0int,
{
    match ty {
        TypeSignature::NoType | TypeSignature::BoolType => vec![WasmType::I32],
        TypeSignature::IntType | TypeSignature::UIntType => vec![WasmType::I64, WasmType::I64],
        TypeSignature::SequenceType(_)
        | TypeSignature::ListUnionType
        | TypeSignature::PrincipalType
        | TypeSignature::CallableType
        | TypeSignature::TraitReferenceType => vec![WasmType::I32, WasmType::I32],
        TypeSignature::OptionalType(inner) => {
            let mut types = vec![WasmType::I32];
            let mut value = clar2wasm_ty(inner);
            types.append(&mut value);
            types
        },
        TypeSignature::ResponseType(inner) => {
            let mut types = vec![WasmType::I32];
            let mut ok_value = clar2wasm_ty(&inner.0);
            let mut err_value = clar2wasm_ty(&inner.1);
            types.append(&mut ok_value);
            types.append(&mut err_value);
            types
        },
        TypeSignature::TupleType(tuple) => clar2wasm_fields(tuple.fields()),
    }
}

/// The types of the stack values that represent the fields of a tuple.
fn clar2wasm_fields(fields: &Vec<(String, TypeSignature)>) -> (types: Vec<WasmType>)
    ensures
        types@ == fields_repr(fields@, fields@.len()),
    decreases fields@, fields@.len(),
{
    let mut types: Vec<WasmType> = Vec::new();
    let mut i: usize = 0;
    while i < fields.len()
        invariant
            i <= fields@.len(),
            types@ == fields_repr(fields@, i as nat),
        decreases fields@.len() - i,
    {
        let mut value = clar2wasm_ty(&fields[i].1);
        types.append(&mut value);
        i += 1;
    }
    types
}

/// Whether a WebAssembly type is one that represents Clarity values.
pub open spec fn is_integer_type(ty: WasmType) -> bool {
    ty is I32 || ty is I64
}

/// Whether all types of a list are ones that represent Clarity values.
#[verifier::opaque]
pub open spec fn all_integers(types: Seq<WasmType>) -> bool {
    forall|i: int| 0 <= i < types.len() ==> is_integer_type(#[trigger] types[i])
}

proof fn lemma_all_integers_joined(left: Seq<WasmType>, right: Seq<WasmType>)
    requires
        all_integers(left),
        all_integers(right),
    ensures
        all_integers(left + right),
{
    reveal(all_integers);
}

proof fn lemma_all_integers_start()
    ensures
        all_integers(Seq::empty()),
        all_integers(seq![WasmType::I32]),
        all_integers(seq![WasmType::I32, WasmType::I32]),
        all_integers(seq![WasmType::I64, WasmType::I64]),
{
    reveal(all_integers);
}

/// Clarity values are represented by integers.
pub proof fn lemma_repr_is_integers(ty: TypeSignature)
    ensures
        all_integers(wasm_repr(ty)),
    decreases ty, 0int,
{
    lemma_all_integers_start();
    match ty {
        TypeSignature::OptionalType(inner) => {
            lemma_repr_is_integers(*inner);
            lemma_all_integers_joined(seq![WasmType::I32], wasm_repr(*inner));
        },
        TypeSignature::ResponseType(inner) => {
            lemma_repr_is_integers(inner.0);
            lemma_repr_is_integers(inner.1);
            lemma_all_integers_joined(seq![WasmType::I32], wasm_repr(inner.0));
            lemma_all_integers_joined(
                seq![WasmType::I32] + wasm_repr(inner.0),
                wasm_repr(inner.1),
            );
        },
        TypeSignature::TupleType(tuple) => {
            lemma_fields_repr_is_integers(tuple@, tuple@.len());
        },
        _ => {},
    }
}

proof fn lemma_fields_repr_is_integers(fields: Seq<(String, TypeSignature)>, n: nat)
    requires
        n <= fields.len(),
    ensures
        all_integers(fields_repr(fields, n)),
    decreases fields, n,
{
    lemma_all_integers_start();
    if n > 0 {
        lemma_fields_repr_is_integers(fields, (n - 1) as nat);
        lemma_repr_is_integers(fields[n - 1].1);
        lemma_all_integers_joined(
            fields_repr(fields, (n - 1) as nat),
            wasm_repr(fields[n - 1].1),
        );
    }
}

/// The instruction that pushes a zero.
pub open spec fn placeholder(ty: WasmType) -> Op {
    if ty is I64 {
        Op::I64Const(0)
    } else {
        Op::I32Const(0)
    }
}

/// The instructions that push a zero of each type.
pub open spec fn placeholders(types: Seq<WasmType>) -> Seq<Op> {
    types.map_values(|ty: WasmType| placeholder(ty))
}

/// The instructions that drop `n` values.
pub open spec fn drops(n: nat) -> Seq<Op> {
    Seq::new(n, |i: int| Op::Drop)
}

/// Pushes a placeholder of WebAssembly type `ty`, which must be one that represents
/// Clarity values.
pub fn add_placeholder_for_type(builder: &mut InstrSeqBuilder, ty: WasmType)
    requires
        old(builder).wf(),
        is_integer_type(ty),
    ensures
        final(builder).appended(*old(builder), placeholder(ty)),
{
    match ty {
        WasmType::I64 => builder.i64_const(0),
        _ => builder.i32_const(0),
    }
}

/// Pushes a placeholder for a value of Clarity type `ty`.
pub fn add_placeholder_for_clarity_type(builder: &mut InstrSeqBuilder, ty: &TypeSignature)
    requires
        old(builder).wf(),
    ensures
        final(builder).extended(*old(builder), placeholders(wasm_repr(*ty))),
{
    let types = clar2wasm_ty(ty);
    proof {
        lemma_repr_is_integers(*ty);
        lemma_emit_all_nothing(builder@);
        assert(placeholders(types@.take(0)) =~= Seq::empty());
    }
    let mut i: usize = 0;
    while i < types.len()
        invariant
            i <= types@.len(),
            types@ == wasm_repr(*ty),
            all_integers(types@),
            old(builder).wf(),
            builder.extended(*old(builder), placeholders(types@.take(i as int))),
        decreases types@.len() - i,
    {
        assert(is_integer_type(types@[i as int])) by {
            reveal(all_integers);
        }
        add_placeholder_for_type(builder, types[i]);
        assert(placeholders(types@.take(i + 1)) =~= placeholders(types@.take(i as int)).push(
            placeholder(types@[i as int]),
        ));
        i += 1;
    }
    assert(types@.take(i as int) =~= types@);
}

/// Drops a value of Clarity type `ty`.
pub fn drop_value(builder: &mut InstrSeqBuilder, ty: &TypeSignature)
    requires
        old(builder).wf(),
    ensures
        final(builder).extended(*old(builder), drops(wasm_repr(*ty).len())),
{
    let types = clar2wasm_ty(ty);
    proof {
        lemma_emit_all_nothing(builder@);
        assert(drops(0) =~= Seq::empty());
    }
    let mut i: usize = 0;
    while i < types.len()
        invariant
            i <= types@.len(),
            old(builder).wf(),
            builder.extended(*old(builder), drops(i as nat)),
        decreases types@.len() - i,
    {
        builder.drop();
        assert(drops((i + 1) as nat) =~= drops(i as nat).push(Op::Drop));
        i += 1;
    }
}

/// What a sequence is made of.
pub enum SequenceElementType {
    /// A byte, from a string-ascii or buffer.
    Byte,
    /// A 32-bit unicode scalar value, from a string-utf8.
    UnicodeScalar,
    /// Any other type.
    Other(Rc<TypeSignature>),
}

/// The type of an element of a sequence: itself a sequence of one, for a byte or a
/// character.
pub open spec fn element_type(element: SequenceElementType) -> TypeSignature {
    match element {
        SequenceElementType::Other(ty) => *ty,
        SequenceElementType::Byte => TypeSignature::SequenceType(SequenceSubtype::BufferType(1)),
        SequenceElementType::UnicodeScalar => TypeSignature::SequenceType(
            SequenceSubtype::StringType(StringSubtype::UTF8(1)),
        ),
    }
}

/// The type of an element of a sequence.
pub fn type_from_sequence_element(element: &SequenceElementType) -> (ty: Rc<TypeSignature>)
    ensures
        *ty == element_type(*element),
{
    match element {
        SequenceElementType::Other(ty) => share(ty),
        SequenceElementType::Byte => Rc::new(
            TypeSignature::SequenceType(SequenceSubtype::BufferType(1)),
        ),
        SequenceElementType::UnicodeScalar => Rc::new(
            TypeSignature::SequenceType(SequenceSubtype::StringType(StringSubtype::UTF8(1))),
        ),
    }
}

} // verus!
