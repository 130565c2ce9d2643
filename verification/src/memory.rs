//! Moving values between the stack, locals and memory.
use vstd::prelude::*;
use walrus::{LocalId, MemoryId};

use crate::builder::InstrSeqBuilder;
use crate::error::{failure_of, internal_error, type_error, Failure, GeneratorError};
use crate::generator::{first_memory_index, internal, GeneratorView, WasmGenerator};
use crate::growth::{
    all_keep_to_themselves, lemma_emitted, lemma_generator_grew, lemma_grew_twice,
    lemma_locals_added, lemma_no_growth, stage,
};
use crate::ir::{group_emit, lemma_emit_all_nothing, lemma_emit_all_twice, no_ops, Op, WasmType};
use crate::layout::{
    clar2wasm_ty, fields_size, get_type_in_memory_size, get_type_size, has_in_memory_size,
    in_memory_size, lemma_fields_size_grows, type_size, wasm_repr,
};
use crate::types::{
    are_value_types, is_value, is_value_type, lemma_fields_stay_invalid, TypeSignature,
};
use crate::wasm_module::{local_index, local_indices, memory_index};

verus! {

broadcast use {group_emit, lemma_grew_twice};

/// The failure for a type that no value has.
pub open spec fn no_value_type() -> Failure {
    Failure::TypeError("Not a valid value type: ListUnionType"@)
}

/// The failure for a value that is larger than memory.
pub open spec fn too_large() -> Failure {
    internal("value does not fit in memory"@)
}

/// Reading an integer.
pub open spec fn load(memory: nat, ty: WasmType, offset: nat) -> Op {
    Op::Load {
        memory,
        ty,
        align: if ty is I64 {
            8
        } else {
            4
        },
        offset,
    }
}

/// Writing an integer.
pub open spec fn store(memory: nat, ty: WasmType, offset: nat) -> Op {
    Op::Store {
        memory,
        ty,
        align: if ty is I64 {
            8
        } else {
            4
        },
        offset,
    }
}

/// The types of the locals that writing a value takes, in the order in which they are
/// added.
pub open spec fn write_locals(ty: TypeSignature) -> Seq<WasmType>
    decreases ty, 0int,
{
    match ty {
        TypeSignature::IntType | TypeSignature::UIntType => seq![WasmType::I64, WasmType::I64],
        TypeSignature::PrincipalType
        | TypeSignature::CallableType
        | TypeSignature::TraitReferenceType
        | TypeSignature::SequenceType(_) => seq![WasmType::I32, WasmType::I32],
        TypeSignature::BoolType => seq![WasmType::I32],
        TypeSignature::NoType | TypeSignature::ListUnionType => Seq::empty(),
        TypeSignature::OptionalType(inner) => write_locals(*inner) + seq![WasmType::I32],
        TypeSignature::ResponseType(inner) => write_locals(inner.1) + write_locals(inner.0)
            + seq![WasmType::I32],
        TypeSignature::TupleType(tuple) => fields_write_locals(tuple@, tuple@.len()),
    }
}

/// The types of the locals that writing the first `n` fields of a tuple takes; the last
/// field is written first.
pub open spec fn fields_write_locals(fields: Seq<(String, TypeSignature)>, n: nat) -> Seq<WasmType>
    decreases fields, n,
{
    if n == 0 || n > fields.len() {
        Seq::empty()
    } else {
        write_locals(fields[n - 1].1) + fields_write_locals(fields, (n - 1) as nat)
    }
}

/// Pops an indicator into local `n` and writes it.
pub open spec fn write_indicator(memory: nat, base: nat, at: nat, n: nat) -> Seq<Op> {
    no_ops()
        .push(Op::LocalSet(n))
        .push(Op::LocalGet(base))
        .push(Op::LocalGet(n))
        .push(store(memory, WasmType::I32, at))
}

/// The instructions that pop a value and write it to memory at the address in local
/// `base` plus `at`. The locals that they use are added from position `n` on.
pub open spec fn write_ops(ty: TypeSignature, memory: nat, base: nat, at: nat, n: nat) -> Seq<Op>
    decreases ty, 0int,
{
    match ty {
        TypeSignature::IntType | TypeSignature::UIntType => no_ops()
            // The high half is on the top of the stack.
            .push(Op::LocalSet(n))
            .push(Op::LocalSet(n + 1))
            .push(Op::LocalGet(base))
            .push(Op::LocalGet(n + 1))
            .push(store(memory, WasmType::I64, at))
            .push(Op::LocalGet(base))
            .push(Op::LocalGet(n))
            .push(store(memory, WasmType::I64, at + 8)),
        TypeSignature::PrincipalType
        | TypeSignature::CallableType
        | TypeSignature::TraitReferenceType
        | TypeSignature::SequenceType(_) => no_ops()
            // The length is on the top of the stack.
            .push(Op::LocalSet(n + 1))
            .push(Op::LocalSet(n))
            .push(Op::LocalGet(base))
            .push(Op::LocalGet(n))
            .push(store(memory, WasmType::I32, at))
            .push(Op::LocalGet(base))
            .push(Op::LocalGet(n + 1))
            .push(store(memory, WasmType::I32, at + 4)),
        TypeSignature::BoolType => write_indicator(memory, base, at, n),
        TypeSignature::NoType => no_ops()
            .push(Op::Drop)
            .push(Op::LocalGet(base))
            .push(Op::I32Const(0))
            .push(store(memory, WasmType::I32, at)),
        TypeSignature::OptionalType(inner) => write_ops(*inner, memory, base, at + 4, n)
            + write_indicator(memory, base, at, n + write_locals(*inner).len()),
        TypeSignature::ResponseType(inner) => write_ops(
            inner.1,
            memory,
            base,
            at + 4 + type_size(inner.0),
            n,
        ) + write_ops(inner.0, memory, base, at + 4, n + write_locals(inner.1).len())
            + write_indicator(
            memory,
            base,
            at,
            n + write_locals(inner.1).len() + write_locals(inner.0).len(),
        ),
        TypeSignature::TupleType(tuple) => fields_write_ops(
            tuple@,
            tuple@.len(),
            memory,
            base,
            at,
            n,
        ),
        TypeSignature::ListUnionType => Seq::empty(),
    }
}

/// The instructions that pop the first `m` fields of a tuple, the last one first, and
/// write each to its place.
pub open spec fn fields_write_ops(
    fields: Seq<(String, TypeSignature)>,
    m: nat,
    memory: nat,
    base: nat,
    at: nat,
    n: nat,
) -> Seq<Op>
    decreases fields, m,
{
    if m == 0 || m > fields.len() {
        Seq::empty()
    } else {
        let ty = fields[m - 1].1;
        write_ops(ty, memory, base, at + fields_size(fields, (m - 1) as nat), n)
            + fields_write_ops(
            fields,
            (m - 1) as nat,
            memory,
            base,
            at,
            n + write_locals(ty).len(),
        )
    }
}

/// Reads a value of one stack slot.
pub open spec fn read_slot(memory: nat, base: nat, ty: WasmType, at: nat) -> Seq<Op> {
    no_ops()
        .push(Op::LocalGet(base))
        .push(load(memory, ty, at))
}

/// The instructions that read a value from memory at the address in local `base` plus
/// `at` and push it, up to the first part of the type that no value has.
pub open spec fn read_ops(ty: TypeSignature, memory: nat, base: nat, at: nat) -> Seq<Op>
    decreases ty, 0int,
{
    match ty {
        TypeSignature::IntType | TypeSignature::UIntType => read_slot(
            memory,
            base,
            WasmType::I64,
            at,
        ) + read_slot(memory, base, WasmType::I64, at + 8),
        TypeSignature::PrincipalType
        | TypeSignature::CallableType
        | TypeSignature::TraitReferenceType
        | TypeSignature::SequenceType(_) => read_slot(memory, base, WasmType::I32, at)
            + read_slot(memory, base, WasmType::I32, at + 4),
        TypeSignature::BoolType => read_slot(memory, base, WasmType::I32, at),
        TypeSignature::NoType => seq![Op::I32Const(0)],
        TypeSignature::OptionalType(inner) => read_slot(memory, base, WasmType::I32, at)
            + read_ops(*inner, memory, base, at + 4),
        TypeSignature::ResponseType(inner) => read_slot(memory, base, WasmType::I32, at)
            + read_ops(inner.0, memory, base, at + 4) + if is_value_type(inner.0) {
            read_ops(inner.1, memory, base, at + 4 + type_size(inner.0))
        } else {
            Seq::empty()
        },
        TypeSignature::TupleType(tuple) => fields_read_ops(
            tuple@,
            tuple@.len(),
            memory,
            base,
            at,
        ),
        TypeSignature::ListUnionType => Seq::empty(),
    }
}

/// The instructions that read the first `m` fields of a tuple.
pub open spec fn fields_read_ops(
    fields: Seq<(String, TypeSignature)>,
    m: nat,
    memory: nat,
    base: nat,
    at: nat,
) -> Seq<Op>
    decreases fields, m,
{
    if m == 0 || m > fields.len() {
        Seq::empty()
    } else if are_value_types(fields, (m - 1) as nat) {
        fields_read_ops(fields, (m - 1) as nat, memory, base, at) + read_ops(
            fields[m - 1].1,
            memory,
            base,
            at + fields_size(fields, (m - 1) as nat),
        )
    } else {
        fields_read_ops(fields, (m - 1) as nat, memory, base, at)
    }
}

/// What stops a value from being read or written part by part.
#[derive(Debug, Clone, Copy, PartialEq, Eq, Structural)]
pub enum Obstacle {
    /// A part of a type that no value has.
    NoValueType,
    /// A part whose offset is too large to be counted.
    OffsetTooLarge,
}

/// The first obstacle when the parts of a value are visited in order, the first of them at
/// offset `at`.
pub open spec fn obstacle(ty: TypeSignature, at: nat) -> Option<Obstacle>
    decreases ty, 0int,
{
    if at > u32::MAX {
        Some(Obstacle::OffsetTooLarge)
    } else {
        match ty {
            TypeSignature::IntType | TypeSignature::UIntType => second_part_obstacle(at + 8),
            TypeSignature::PrincipalType
            | TypeSignature::CallableType
            | TypeSignature::TraitReferenceType
            | TypeSignature::SequenceType(_) => second_part_obstacle(at + 4),
            TypeSignature::BoolType | TypeSignature::NoType => None,
            TypeSignature::OptionalType(inner) => obstacle(*inner, at + 4),
            TypeSignature::ResponseType(inner) => match obstacle(inner.0, at + 4) {
                Some(first) => Some(first),
                None => obstacle(inner.1, at + 4 + type_size(inner.0)),
            },
            TypeSignature::TupleType(tuple) => fields_obstacle(tuple@, tuple@.len(), at),
            TypeSignature::ListUnionType => Some(Obstacle::NoValueType),
        }
    }
}

/// The obstacle at the second part of a value of two parts.
pub open spec fn second_part_obstacle(at: nat) -> Option<Obstacle> {
    if at > u32::MAX {
        Some(Obstacle::OffsetTooLarge)
    } else {
        None
    }
}

/// The first obstacle in the first `n` fields of a tuple.
pub open spec fn fields_obstacle(
    fields: Seq<(String, TypeSignature)>,
    n: nat,
    at: nat,
) -> Option<Obstacle>
    decreases fields, n,
{
    if n == 0 || n > fields.len() {
        None
    } else {
        match fields_obstacle(fields, (n - 1) as nat, at) {
            Some(first) => Some(first),
            None => obstacle(fields[n - 1].1, at + fields_size(fields, (n - 1) as nat)),
        }
    }
}

/// Where nothing is in the way the type is one that values have, and where one that they do
/// not have is in the way it is not. An offset that is too large is in the way.
proof fn lemma_obstacle(ty: TypeSignature, at: nat)
    ensures
        at > u32::MAX ==> obstacle(ty, at) == Some(Obstacle::OffsetTooLarge),
        obstacle(ty, at) is None ==> is_value_type(ty),
        obstacle(ty, at) == Some(Obstacle::NoValueType) ==> !is_value_type(ty),
    decreases ty, 0int,
{
    match ty {
        TypeSignature::OptionalType(inner) => lemma_obstacle(*inner, at + 4),
        TypeSignature::ResponseType(inner) => {
            lemma_obstacle(inner.0, at + 4);
            lemma_obstacle(inner.1, at + 4 + type_size(inner.0));
        },
        TypeSignature::TupleType(tuple) => lemma_fields_obstacle(tuple@, tuple@.len(), at),
        _ => {},
    }
}

proof fn lemma_fields_obstacle(fields: Seq<(String, TypeSignature)>, n: nat, at: nat)
    ensures
        fields_obstacle(fields, n, at) is None ==> are_value_types(fields, n),
        fields_obstacle(fields, n, at) == Some(Obstacle::NoValueType) ==> !are_value_types(
            fields,
            n,
        ),
    decreases fields, n,
{
    if 0 < n <= fields.len() {
        lemma_fields_obstacle(fields, (n - 1) as nat, at);
        lemma_obstacle(fields[n - 1].1, at + fields_size(fields, (n - 1) as nat));
    }
}

/// What is in the way in the first fields is in the way in all of them.
proof fn lemma_obstacle_stays(fields: Seq<(String, TypeSignature)>, n: nat, m: nat, at: nat)
    requires
        n <= m <= fields.len(),
        fields_obstacle(fields, n, at) is Some,
    ensures
        fields_obstacle(fields, m, at) == fields_obstacle(fields, n, at),
    decreases m,
{
    if n < m {
        lemma_obstacle_stays(fields, n, (m - 1) as nat, at);
    }
}

/// Whether the parts of a value have offsets that can be counted, and the value a size.
pub open spec fn fits(ty: TypeSignature, at: u32) -> bool {
    obstacle(ty, at as nat) is None && type_size(ty) <= i32::MAX
}

/// Why a value cannot be written, where it cannot.
pub open spec fn write_failure(generator: GeneratorView, ty: TypeSignature, at: u32) -> Option<
    Failure,
> {
    if first_memory_index(generator.module) is None {
        Some(internal("No memory found"@))
    } else if !is_value_type(ty) {
        Some(no_value_type())
    } else if !fits(ty, at) {
        Some(too_large())
    } else {
        None
    }
}

/// Why a value cannot be read, where it cannot.
pub open spec fn read_failure(generator: GeneratorView, ty: TypeSignature, at: u32) -> Option<
    Failure,
> {
    if first_memory_index(generator.module) is None {
        Some(internal("No memory found"@))
    } else if obstacle(ty, at as nat) == Some(Obstacle::NoValueType) {
        Some(no_value_type())
    } else if !fits(ty, at) {
        Some(too_large())
    } else {
        None
    }
}

/// The end of a value that starts at an offset, or what is in the way.
fn measure(ty: &TypeSignature, at: u64) -> (result: Result<u64, Obstacle>)
    requires
        at <= u32::MAX + 8,
    ensures
        match result {
            Ok(end) => {
                &&& obstacle(*ty, at as nat) is None
                &&& end == at + type_size(*ty)
                &&& end <= u32::MAX + 8
            },
            Err(first) => obstacle(*ty, at as nat) == Some(first),
        },
    decreases *ty, 0int,
{
    if at > u32::MAX as u64 {
        return Err(Obstacle::OffsetTooLarge);
    }
    match ty {
        TypeSignature::IntType | TypeSignature::UIntType => {
            if at + 8 > u32::MAX as u64 {
                return Err(Obstacle::OffsetTooLarge);
            }
            Ok(at + 16)
        },
        TypeSignature::PrincipalType
        | TypeSignature::CallableType
        | TypeSignature::TraitReferenceType
        | TypeSignature::SequenceType(_) => {
            if at + 4 > u32::MAX as u64 {
                return Err(Obstacle::OffsetTooLarge);
            }
            Ok(at + 8)
        },
        TypeSignature::BoolType | TypeSignature::NoType => Ok(at + 4),
        TypeSignature::OptionalType(inner) => measure(inner, at + 4),
        TypeSignature::ResponseType(inner) => {
            let ok_end: u64 = measure(&inner.0, at + 4)?;
            measure(&inner.1, ok_end)
        },
        TypeSignature::TupleType(tuple) => measure_fields(tuple.fields(), at),
        TypeSignature::ListUnionType => Err(Obstacle::NoValueType),
    }
}

/// The end of the fields of a tuple that start at an offset, or what is in the way.
fn measure_fields(fields: &Vec<(String, TypeSignature)>, at: u64) -> (result: Result<
    u64,
    Obstacle,
>)
    requires
        at <= u32::MAX,
    ensures
        match result {
            Ok(end) => {
                &&& fields_obstacle(fields@, fields@.len(), at as nat) is None
                &&& end == at + fields_size(fields@, fields@.len())
                &&& end <= u32::MAX + 8
            },
            Err(first) => fields_obstacle(fields@, fields@.len(), at as nat) == Some(first),
        },
    decreases fields@, fields@.len(),
{
    let mut end: u64 = at;
    let mut i: usize = 0;
    while i < fields.len()
        invariant
            i <= fields@.len(),
            fields_obstacle(fields@, i as nat, at as nat) is None,
            end == at + fields_size(fields@, i as nat),
            end <= u32::MAX + 8,
        decreases fields@.len() - i,
    {
        match measure(&fields[i].1, end) {
            Ok(next) => {
                end = next;
            },
            Err(first) => {
                proof {
                    lemma_obstacle_stays(fields@, (i + 1) as nat, fields@.len(), at as nat);
                }
                return Err(first);
            },
        }
        i += 1;
    }
    Ok(end)
}

/// Reading a value only pushes words.
pub proof fn lemma_reading_keeps_to_itself(
    ty: TypeSignature,
    memory: nat,
    base: nat,
    at: nat,
    first_local: nat,
    first_block: nat,
    exit: Option<nat>,
)
    ensures
        all_keep_to_themselves(read_ops(ty, memory, base, at), 0, first_local, first_block, exit),
    decreases ty, 0int,
{
    match ty {
        TypeSignature::OptionalType(inner) => {
            lemma_reading_keeps_to_itself(
                *inner,
                memory,
                base,
                at + 4,
                first_local,
                first_block,
                exit,
            );
        },
        TypeSignature::ResponseType(inner) => {
            lemma_reading_keeps_to_itself(
                inner.0,
                memory,
                base,
                at + 4,
                first_local,
                first_block,
                exit,
            );
            lemma_reading_keeps_to_itself(
                inner.1,
                memory,
                base,
                at + 4 + type_size(inner.0),
                first_local,
                first_block,
                exit,
            );
        },
        TypeSignature::TupleType(tuple) => {
            lemma_reading_fields_keeps_to_itself(
                tuple@,
                tuple@.len(),
                memory,
                base,
                at,
                first_local,
                first_block,
                exit,
            );
        },
        _ => {},
    }
}

proof fn lemma_reading_fields_keeps_to_itself(
    fields: Seq<(String, TypeSignature)>,
    m: nat,
    memory: nat,
    base: nat,
    at: nat,
    first_local: nat,
    first_block: nat,
    exit: Option<nat>,
)
    ensures
        all_keep_to_themselves(
            fields_read_ops(fields, m, memory, base, at),
            0,
            first_local,
            first_block,
            exit,
        ),
    decreases fields, m,
{
    if 0 < m <= fields.len() {
        lemma_reading_fields_keeps_to_itself(
            fields,
            (m - 1) as nat,
            memory,
            base,
            at,
            first_local,
            first_block,
            exit,
        );
        lemma_reading_keeps_to_itself(
            fields[m - 1].1,
            memory,
            base,
            at + fields_size(fields, (m - 1) as nat),
            first_local,
            first_block,
            exit,
        );
    }
}

/// Writing a value writes only locals from position `n` on.
proof fn lemma_writing_keeps_to_itself(
    ty: TypeSignature,
    memory: nat,
    base: nat,
    at: nat,
    n: nat,
    first_local: nat,
    first_block: nat,
    exit: Option<nat>,
)
    requires
        first_local <= n,
    ensures
        all_keep_to_themselves(
            write_ops(ty, memory, base, at, n),
            0,
            first_local,
            first_block,
            exit,
        ),
    decreases ty, 0int,
{
    match ty {
        TypeSignature::OptionalType(inner) => {
            lemma_writing_keeps_to_itself(
                *inner,
                memory,
                base,
                at + 4,
                n,
                first_local,
                first_block,
                exit,
            );
        },
        TypeSignature::ResponseType(inner) => {
            lemma_writing_keeps_to_itself(
                inner.1,
                memory,
                base,
                at + 4 + type_size(inner.0),
                n,
                first_local,
                first_block,
                exit,
            );
            lemma_writing_keeps_to_itself(
                inner.0,
                memory,
                base,
                at + 4,
                n + write_locals(inner.1).len(),
                first_local,
                first_block,
                exit,
            );
        },
        TypeSignature::TupleType(tuple) => {
            lemma_writing_fields_keeps_to_itself(
                tuple@,
                tuple@.len(),
                memory,
                base,
                at,
                n,
                first_local,
                first_block,
                exit,
            );
        },
        _ => {},
    }
}

proof fn lemma_writing_fields_keeps_to_itself(
    fields: Seq<(String, TypeSignature)>,
    m: nat,
    memory: nat,
    base: nat,
    at: nat,
    n: nat,
    first_local: nat,
    first_block: nat,
    exit: Option<nat>,
)
    requires
        first_local <= n,
    ensures
        all_keep_to_themselves(
            fields_write_ops(fields, m, memory, base, at, n),
            0,
            first_local,
            first_block,
            exit,
        ),
    decreases fields, m,
{
    if 0 < m <= fields.len() {
        let ty = fields[m - 1].1;
        lemma_writing_keeps_to_itself(
            ty,
            memory,
            base,
            at + fields_size(fields, (m - 1) as nat),
            n,
            first_local,
            first_block,
            exit,
        );
        lemma_writing_fields_keeps_to_itself(
            fields,
            (m - 1) as nat,
            memory,
            base,
            at,
            n + write_locals(ty).len(),
            first_local,
            first_block,
            exit,
        );
    }
}

impl WasmGenerator {
    /// Pops an indicator into a new local and writes it.
    fn write_slot(
        &mut self,
        builder: &mut InstrSeqBuilder,
        memory: MemoryId,
        offset_local: LocalId,
        offset: u32,
    )
        requires
            old(self).wf(),
            old(builder).wf(),
        ensures
            final(self).wf(),
            final(self)@ == old(self)@.add_local(WasmType::I32),
            final(builder).extended(
                *old(builder),
                write_indicator(
                    memory_index(memory),
                    local_index(offset_local),
                    offset as nat,
                    old(self)@.next_local(),
                ),
            ),
    {
        proof {
            lemma_emit_all_nothing(builder@);
        }
        let local = self.add_local(WasmType::I32);
        builder.local_set(local);
        builder.local_get(offset_local);
        builder.local_get(local);
        builder.i32_store(memory, 4, offset);
    }

    /// Pops a value that can be written and writes it.
    fn write_value(
        &mut self,
        builder: &mut InstrSeqBuilder,
        memory: MemoryId,
        offset_local: LocalId,
        offset: u32,
        ty: &TypeSignature,
    )
        requires
            old(self).wf(),
            old(builder).wf(),
            is_value_type(*ty),
            fits(*ty, offset),
        ensures
            final(self).wf(),
            final(self)@ == old(self)@.add_locals(write_locals(*ty)),
            final(builder).extended(
                *old(builder),
                write_ops(
                    *ty,
                    memory_index(memory),
                    local_index(offset_local),
                    offset as nat,
                    old(self)@.next_local(),
                ),
            ),
        decreases *ty, 0int,
    {
        proof {
            lemma_emit_all_nothing(builder@);
        }
        match ty {
            TypeSignature::IntType | TypeSignature::UIntType => {
                // Data stack: TOP | High | Low | ...
                // Save the high/low to locals.
                let high = self.add_local(WasmType::I64);
                let low = self.add_local(WasmType::I64);
                builder.local_set(high);
                builder.local_set(low);

                // Store the high/low to memory.
                builder.local_get(offset_local);
                builder.local_get(low);
                builder.i64_store(memory, 8, offset);
                builder.local_get(offset_local);
                builder.local_get(high);
                builder.i64_store(memory, 8, offset + 8);
            },
            TypeSignature::PrincipalType
            | TypeSignature::CallableType
            | TypeSignature::TraitReferenceType
            | TypeSignature::SequenceType(_) => {
                // Data stack: TOP | Length | Offset | ...
                // Save the offset/length to locals.
                let seq_offset = self.add_local(WasmType::I32);
                let seq_length = self.add_local(WasmType::I32);
                builder.local_set(seq_length);
                builder.local_set(seq_offset);

                // Store the offset/length to memory.
                builder.local_get(offset_local);
                builder.local_get(seq_offset);
                builder.i32_store(memory, 4, offset);
                builder.local_get(offset_local);
                builder.local_get(seq_length);
                builder.i32_store(memory, 4, offset + 4);
            },
            TypeSignature::BoolType => {
                // Data stack: TOP | Value | ...
                self.write_slot(builder, memory, offset_local, offset);
            },
            TypeSignature::NoType => {
                // Data stack: TOP | (Place holder i32)
                // We just have to drop the placeholder and write a i32
                builder.drop();
                builder.local_get(offset_local);
                builder.i32_const(0);
                builder.i32_store(memory, 4, offset);
            },
            TypeSignature::OptionalType(inner) => {
                // Data stack: TOP | inner value | (some|none) variant
                proof {
                    lemma_obstacle(**inner, offset as nat + 4);
                }
                self.write_value(builder, memory, offset_local, offset + 4, inner);
                self.write_slot(builder, memory, offset_local, offset);
                proof {
                    lemma_emit_all_twice(
                        old(builder)@,
                        write_ops(
                            **inner,
                            memory_index(memory),
                            local_index(offset_local),
                            offset as nat + 4,
                            old(self)@.next_local(),
                        ),
                        write_indicator(
                            memory_index(memory),
                            local_index(offset_local),
                            offset as nat,
                            old(self)@.next_local() + write_locals(**inner).len(),
                        ),
                    );
                }
            },
            TypeSignature::ResponseType(inner) => {
                // Data stack: TOP | err_value | ok_value | (ok|err) variant
                // write err value at offset + size of variant (4) + size of ok_value
                proof {
                    lemma_obstacle(inner.0, offset as nat + 4);
                    lemma_obstacle(inner.1, offset as nat + 4 + type_size(inner.0));
                }
                let ok_size: u32 = get_type_size(&inner.0) as u32;
                self.write_value(builder, memory, offset_local, offset + 4 + ok_size, &inner.1);

                // write ok value at offset + size of variant (4)
                self.write_value(builder, memory, offset_local, offset + 4, &inner.0);
                self.write_slot(builder, memory, offset_local, offset);
                proof {
                    let m = memory_index(memory);
                    let base = local_index(offset_local);
                    let n = old(self)@.next_local();
                    let first = write_ops(
                        inner.1,
                        m,
                        base,
                        offset as nat + 4 + type_size(inner.0),
                        n,
                    );
                    let second = write_ops(
                        inner.0,
                        m,
                        base,
                        offset as nat + 4,
                        n + write_locals(inner.1).len(),
                    );
                    let third = write_indicator(
                        m,
                        base,
                        offset as nat,
                        n + write_locals(inner.1).len() + write_locals(inner.0).len(),
                    );
                    lemma_emit_all_twice(old(builder)@, first, second);
                    lemma_emit_all_twice(old(builder)@, first + second, third);
                }
            },
            TypeSignature::TupleType(tuple) => {
                self.write_fields(builder, memory, offset_local, offset, tuple.fields());
            },
            TypeSignature::ListUnionType => {},
        }
    }

    /// Pops the fields of a tuple, the last one first, and writes each to its place.
    fn write_fields(
        &mut self,
        builder: &mut InstrSeqBuilder,
        memory: MemoryId,
        offset_local: LocalId,
        offset: u32,
        fields: &Vec<(String, TypeSignature)>,
    )
        requires
            old(self).wf(),
            old(builder).wf(),
            are_value_types(fields@, fields@.len()),
            fields_size(fields@, fields@.len()) <= i32::MAX,
            fields_obstacle(fields@, fields@.len(), offset as nat) is None,
        ensures
            final(self).wf(),
            final(self)@ == old(self)@.add_locals(fields_write_locals(fields@, fields@.len())),
            final(builder).extended(
                *old(builder),
                fields_write_ops(
                    fields@,
                    fields@.len(),
                    memory_index(memory),
                    local_index(offset_local),
                    offset as nat,
                    old(self)@.next_local(),
                ),
            ),
        decreases fields@, fields@.len(),
    {
        let ghost m = memory_index(memory);
        let ghost base = local_index(offset_local);
        // The sizes of the first `i` fields together, and after the loop of none.
        let mut end: u32 = 0;
        let mut i: usize = 0;
        while i < fields.len()
            invariant
                i <= fields@.len(),
                are_value_types(fields@, fields@.len()),
                end == fields_size(fields@, i as nat),
                fields_size(fields@, fields@.len()) <= i32::MAX,
            decreases fields@.len() - i,
        {
            proof {
                lemma_fields_size_grows(fields@, (i + 1) as nat, fields@.len());
                if !are_value_types(fields@, (i + 1) as nat) {
                    lemma_fields_stay_invalid(fields@, (i + 1) as nat, fields@.len());
                }
            }
            end = end + get_type_size(&fields[i].1) as u32;
            i += 1;
        }
        while i > 0
            invariant
                i <= fields@.len(),
                are_value_types(fields@, i as nat),
                end == fields_size(fields@, i as nat),
                end <= i32::MAX,
                fields_obstacle(fields@, i as nat, offset as nat) is None,
                m == memory_index(memory),
                base == local_index(offset_local),
                self.wf(),
                old(builder).wf(),
                builder.wf(),
                builder.seq == old(builder).seq,
                builder.grew_from(*old(builder)),
                self@.add_locals(fields_write_locals(fields@, i as nat)) == old(self)@.add_locals(
                    fields_write_locals(fields@, fields@.len()),
                ),
                builder@.emit_all(
                    fields_write_ops(
                        fields@,
                        i as nat,
                        m,
                        base,
                        offset as nat,
                        self@.next_local(),
                    ),
                ) == old(builder)@.emit_all(
                    fields_write_ops(
                        fields@,
                        fields@.len(),
                        m,
                        base,
                        offset as nat,
                        old(self)@.next_local(),
                    ),
                ),
            decreases i,
        {
            let ghost n = self@.next_local();
            let ghost before = *self;
            let ghost code = builder@;
            i -= 1;
            end = end - get_type_size(&fields[i].1) as u32;
            proof {
                lemma_obstacle(fields@[i as int].1, (offset + end) as nat);
            }
            self.write_value(builder, memory, offset_local, offset + end, &fields[i].1);
            proof {
                let ty = fields@[i as int].1;
                lemma_emit_all_twice(
                    code,
                    write_ops(ty, m, base, (offset + end) as nat, n),
                    fields_write_ops(
                        fields@,
                        i as nat,
                        m,
                        base,
                        offset as nat,
                        n + write_locals(ty).len(),
                    ),
                );
                crate::ir::lemma_add_locals_twice(
                    before@.module,
                    write_locals(ty),
                    fields_write_locals(fields@, i as nat),
                );
            }
        }
        proof {
            lemma_emit_all_nothing(builder@);
            crate::ir::lemma_add_locals_nothing(self@.module);
        }
    }

    /// Write the value that is on the top of the data stack, which has type
    /// `ty`, to the memory, at offset stored in local variable,
    /// `offset_local`, plus constant offset `offset`. Returns the number of
    /// bytes written.
    pub fn write_to_memory(
        &mut self,
        builder: &mut InstrSeqBuilder,
        offset_local: LocalId,
        offset: u32,
        ty: &TypeSignature,
    ) -> (result: Result<u32, GeneratorError>)
        requires
            old(self).wf(),
            old(builder).wf(),
        ensures
            final(self).wf(),
            final(builder).wf(),
            final(builder).seq == old(builder).seq,
            final(builder).grew_from(*old(builder)),
            stage(final(self)@, final(builder)@).grew_from(stage(old(self)@, old(builder)@)),
            match result {
                Ok(bytes) => {
                    &&& write_failure(old(self)@, *ty, offset) is None
                    &&& bytes == type_size(*ty)
                    &&& final(self)@ == old(self)@.add_locals(write_locals(*ty))
                    &&& final(builder)@ == old(builder)@.emit_all(
                        write_ops(
                            *ty,
                            first_memory_index(old(self)@.module)->0,
                            local_index(offset_local),
                            offset as nat,
                            old(self)@.next_local(),
                        ),
                    )
                },
                Err(error) => {
                    &&& write_failure(old(self)@, *ty, offset) == Some(error@)
                    &&& final(self)@ == old(self)@
                    &&& final(builder)@ == old(builder)@
                },
            },
    {
        proof {
            lemma_no_growth(stage(self@, builder@));
        }
        let memory = self.get_memory()?;
        if !is_value(ty) {
            return Err(type_error("Not a valid value type: ListUnionType"));
        }
        let size: u64 = match measure(ty, offset as u64) {
            Ok(end) => end - offset as u64,
            Err(_) => return Err(internal_error("value does not fit in memory")),
        };
        if size > i32::MAX as u64 {
            return Err(internal_error("value does not fit in memory"));
        }
        proof {
            let n = self@.next_local();
            let ops = write_ops(
                *ty,
                memory_index(memory),
                local_index(offset_local),
                offset as nat,
                n,
            );
            lemma_writing_keeps_to_itself(
                *ty,
                memory_index(memory),
                local_index(offset_local),
                offset as nat,
                n,
                n,
                builder@.function.blocks.len(),
                self@.early_return_block,
            );
            lemma_emitted(self@, builder@, ops);
            lemma_locals_added(self@, write_locals(*ty), builder@.emit_all(ops));
        }
        self.write_value(builder, memory, offset_local, offset, ty);
        Ok(size as u32)
    }

    /// Read a value from memory at offset stored in local variable `offset`,
    /// plus constant offset `literal_offset`, with type `ty`, and push it onto
    /// the top of the data stack. Returns the number of bytes read.
    pub fn read_from_memory(
        &mut self,
        builder: &mut InstrSeqBuilder,
        offset: LocalId,
        literal_offset: u32,
        ty: &TypeSignature,
    ) -> (result: Result<i32, GeneratorError>)
        requires
            old(self).wf(),
            old(builder).wf(),
        ensures
            final(self).wf(),
            final(self)@ == old(self)@,
            final(builder).wf(),
            final(builder).seq == old(builder).seq,
            final(builder).grew_from(*old(builder)),
            stage(final(self)@, final(builder)@).grew_from(stage(old(self)@, old(builder)@)),
            failure_of(result) == read_failure(old(self)@, *ty, literal_offset),
            result matches Ok(bytes) ==> bytes == type_size(*ty),
            final(builder)@ == match read_failure(old(self)@, *ty, literal_offset) {
                Some(failure) if failure != no_value_type() => old(builder)@,
                _ => old(builder)@.emit_all(
                    read_ops(
                        *ty,
                        first_memory_index(old(self)@.module)->0,
                        local_index(offset),
                        literal_offset as nat,
                    ),
                ),
            },
    {
        proof {
            lemma_no_growth(stage(self@, builder@));
        }
        let memory = self.get_memory()?;
        proof {
            let (m, base) = (memory_index(memory), local_index(offset));
            lemma_reading_keeps_to_itself(
                *ty,
                m,
                base,
                literal_offset as nat,
                self@.next_local(),
                builder@.function.blocks.len(),
                self@.early_return_block,
            );
            lemma_emitted(self@, builder@, read_ops(*ty, m, base, literal_offset as nat));
        }
        let start: u64 = literal_offset as u64;
        let is_too_large = match measure(ty, start) {
            Ok(end) => end - start > i32::MAX as u64,
            Err(Obstacle::OffsetTooLarge) => true,
            Err(Obstacle::NoValueType) => false,
        };
        if is_too_large {
            return Err(internal_error("value does not fit in memory"));
        }
        match read_value(builder, memory, offset, literal_offset, ty) {
            Some(end) => Ok((end - start) as i32),
            None => Err(type_error("Not a valid value type: ListUnionType")),
        }
    }
}

/// Reads one stack slot.
fn read_i32(builder: &mut InstrSeqBuilder, memory: MemoryId, offset: LocalId, literal_offset: u32)
    requires
        old(builder).wf(),
    ensures
        final(builder).extended(
            *old(builder),
            read_slot(
                memory_index(memory),
                local_index(offset),
                WasmType::I32,
                literal_offset as nat,
            ),
        ),
{
    proof {
        lemma_emit_all_nothing(builder@);
    }
    builder.local_get(offset);
    builder.i32_load(memory, 4, literal_offset);
}

/// Reads a value, up to the first part of its type that no value has. Returns where the
/// value ends, if there is no such part.
fn read_value(
    builder: &mut InstrSeqBuilder,
    memory: MemoryId,
    offset: LocalId,
    literal_offset: u32,
    ty: &TypeSignature,
) -> (result: Option<u64>)
    requires
        old(builder).wf(),
        obstacle(*ty, literal_offset as nat) != Some(Obstacle::OffsetTooLarge),
    ensures
        match result {
            Some(end) => {
                &&& obstacle(*ty, literal_offset as nat) is None
                &&& end == literal_offset + type_size(*ty)
                &&& end <= u32::MAX + 8
            },
            None => obstacle(*ty, literal_offset as nat) == Some(Obstacle::NoValueType),
        },
        final(builder).extended(
            *old(builder),
            read_ops(*ty, memory_index(memory), local_index(offset), literal_offset as nat),
        ),
    decreases *ty, 0int,
{
    let ghost m = memory_index(memory);
    let ghost base = local_index(offset);
    let ghost at = literal_offset as nat;
    proof {
        lemma_emit_all_nothing(builder@);
    }
    match ty {
        TypeSignature::IntType | TypeSignature::UIntType => {
            // Memory: Offset -> | Low | High |
            builder.local_get(offset);
            builder.i64_load(memory, 8, literal_offset);
            builder.local_get(offset);
            builder.i64_load(memory, 8, literal_offset + 8);
            assert(read_ops(*ty, m, base, at) =~= no_ops().push(Op::LocalGet(base)).push(
                load(m, WasmType::I64, at),
            ).push(Op::LocalGet(base)).push(load(m, WasmType::I64, at + 8)));
            Some(literal_offset as u64 + 16)
        },
        TypeSignature::OptionalType(inner) => {
            // Memory: Offset -> | Indicator | Value |
            read_i32(builder, memory, offset, literal_offset);
            proof {
                lemma_obstacle(**inner, at + 4);
                lemma_emit_all_twice(
                    old(builder)@,
                    read_slot(m, base, WasmType::I32, at),
                    read_ops(**inner, m, base, at + 4),
                );
            }
            read_value(builder, memory, offset, literal_offset + 4, inner)
        },
        TypeSignature::ResponseType(inner) => {
            // Memory: Offset -> | Indicator | Ok Value | Err Value |
            read_i32(builder, memory, offset, literal_offset);
            proof {
                let indicator = read_slot(m, base, WasmType::I32, at);
                let ok_value = read_ops(inner.0, m, base, at + 4);
                lemma_emit_all_twice(old(builder)@, indicator, ok_value);
                lemma_emit_all_twice(
                    old(builder)@,
                    indicator + ok_value,
                    read_ops(inner.1, m, base, at + 4 + type_size(inner.0)),
                );
                assert(indicator + ok_value + Seq::<Op>::empty() =~= indicator + ok_value);
                lemma_obstacle(inner.0, at + 4);
                lemma_obstacle(inner.1, at + 4 + type_size(inner.0));
            }
            let ok_end: u64 = read_value(builder, memory, offset, literal_offset + 4, &inner.0)?;
            read_value(builder, memory, offset, ok_end as u32, &inner.1)
        },
        // Principals and sequence types are stored in-memory and
        // represented by an offset and length.
        TypeSignature::PrincipalType
        | TypeSignature::CallableType
        | TypeSignature::TraitReferenceType
        | TypeSignature::SequenceType(_) => {
            // Memory: Offset -> | ValueOffset | ValueLength |
            read_i32(builder, memory, offset, literal_offset);
            read_i32(builder, memory, offset, literal_offset + 4);
            proof {
                lemma_emit_all_twice(
                    old(builder)@,
                    read_slot(m, base, WasmType::I32, at),
                    read_slot(m, base, WasmType::I32, at + 4),
                );
            }
            Some(literal_offset as u64 + 8)
        },
        TypeSignature::TupleType(tuple) => read_fields(
            builder,
            memory,
            offset,
            literal_offset,
            tuple.fields(),
        ),
        // Unknown types just get a placeholder i32 value.
        TypeSignature::NoType => {
            builder.i32_const(0);
            Some(literal_offset as u64 + 4)
        },
        TypeSignature::BoolType => {
            read_i32(builder, memory, offset, literal_offset);
            Some(literal_offset as u64 + 4)
        },
        TypeSignature::ListUnionType => None,
    }
}

/// Reads the fields of a tuple, up to the first part of their types that no value has.
/// Returns where the last one ends, if there is no such part.
fn read_fields(
    builder: &mut InstrSeqBuilder,
    memory: MemoryId,
    offset: LocalId,
    literal_offset: u32,
    fields: &Vec<(String, TypeSignature)>,
) -> (result: Option<u64>)
    requires
        old(builder).wf(),
        fields_obstacle(fields@, fields@.len(), literal_offset as nat) != Some(
            Obstacle::OffsetTooLarge,
        ),
    ensures
        match result {
            Some(end) => {
                &&& fields_obstacle(fields@, fields@.len(), literal_offset as nat) is None
                &&& end == literal_offset + fields_size(fields@, fields@.len())
                &&& end <= u32::MAX + 8
            },
            None => fields_obstacle(fields@, fields@.len(), literal_offset as nat) == Some(
                Obstacle::NoValueType,
            ),
        },
        final(builder).extended(
            *old(builder),
            fields_read_ops(
                fields@,
                fields@.len(),
                memory_index(memory),
                local_index(offset),
                literal_offset as nat,
            ),
        ),
    decreases fields@, fields@.len(),
{
    let ghost m = memory_index(memory);
    let ghost base = local_index(offset);
    let ghost at = literal_offset as nat;
    proof {
        lemma_emit_all_nothing(builder@);
    }
    // Memory: Offset -> | Value1 | Value2 | ... |
    let mut end: u64 = literal_offset as u64;
    let mut i: usize = 0;
    while i < fields.len()
        invariant
            i <= fields@.len(),
            fields_obstacle(fields@, i as nat, at) is None,
            fields_obstacle(fields@, fields@.len(), at) != Some(Obstacle::OffsetTooLarge),
            end == at + fields_size(fields@, i as nat),
            end <= u32::MAX + 8,
            m == memory_index(memory),
            base == local_index(offset),
            at == literal_offset,
            old(builder).wf(),
            builder.extended(*old(builder), fields_read_ops(fields@, i as nat, m, base, at)),
        decreases fields@.len() - i,
    {
        proof {
            lemma_fields_obstacle(fields@, i as nat, at);
            lemma_fields_obstacle(fields@, (i + 1) as nat, at);
            lemma_obstacle(fields@[i as int].1, end as nat);
            if fields_obstacle(fields@, (i + 1) as nat, at) is Some {
                lemma_obstacle_stays(fields@, (i + 1) as nat, fields@.len(), at);
            }
            lemma_emit_all_twice(
                old(builder)@,
                fields_read_ops(fields@, i as nat, m, base, at),
                read_ops(fields@[i as int].1, m, base, end as nat),
            );
        }
        match read_value(builder, memory, offset, end as u32, &fields[i].1) {
            Some(next) => {
                end = next;
            },
            None => {
                proof {
                    lemma_read_stops(fields@, (i + 1) as nat, fields@.len(), m, base, at);
                }
                return None;
            },
        }
        i += 1;
    }
    Some(end)
}

/// Nothing is read after a part of a type that no value has.
proof fn lemma_read_stops(
    fields: Seq<(String, TypeSignature)>,
    n: nat,
    m: nat,
    memory: nat,
    base: nat,
    at: nat,
)
    requires
        n <= m <= fields.len(),
        !are_value_types(fields, n),
    ensures
        fields_read_ops(fields, m, memory, base, at) == fields_read_ops(
            fields,
            n,
            memory,
            base,
            at,
        ),
    decreases m,
{
    if n < m {
        lemma_read_stops(fields, n, (m - 1) as nat, memory, base, at);
        lemma_fields_stay_invalid(fields, n, (m - 1) as nat);
    }
}

/// The number of bytes that a value on the call stack takes.
pub open spec fn call_stack_size(
    ty: TypeSignature,
    include_repr: bool,
    include_value: bool,
) -> nat {
    let value = if include_value {
        in_memory_size(ty, include_repr)
    } else {
        0
    };
    let repr = if include_repr {
        type_size(ty)
    } else {
        0
    };
    value + repr
}

/// Whether the number of bytes that a value on the call stack takes is known.
pub open spec fn has_call_stack_size(
    ty: TypeSignature,
    include_repr: bool,
    include_value: bool,
) -> bool {
    &&& include_repr || include_value
    &&& include_repr ==> is_value_type(ty)
    &&& include_value ==> has_in_memory_size(ty, include_repr)
}

/// The instructions that note the stack pointer in a local and move it on.
pub open spec fn call_stack_ops(stack_pointer: nat, local: nat, size: i32) -> Seq<Op> {
    no_ops()
        // []
        .push(Op::GlobalGet(stack_pointer))
        // [ stack_ptr ]
        .push(Op::LocalTee(local))
        // [ stack_ptr ]
        .push(Op::I32Const(size))
        // [ stack_ptr, size ]
        .push(Op::I32Add)
        // [ new_stack_ptr ]
        .push(Op::GlobalSet(stack_pointer))
        // [  ]
}

impl GeneratorView {
    /// The state after a value was put on the call stack.
    pub open spec fn with_call_stack_local(self, size: nat) -> GeneratorView {
        GeneratorView {
            frame_size: (self.frame_size + size) as i32,
            ..self.add_local(WasmType::I32)
        }
    }
}

/// The positions of `n` locals from `first` on.
pub open spec fn locals_from(first: nat, n: nat) -> Seq<nat> {
    Seq::new(n, |i: int| (first + i) as nat)
}

/// The instructions that pop values into `n` locals from `first` on, the top of the stack
/// into the first of them.
pub open spec fn pops_into(first: nat, n: nat) -> Seq<Op> {
    Seq::new(n, |i: int| Op::LocalSet((first + i) as nat))
}

/// The instructions that push the values of locals.
pub open spec fn pushes(locals: Seq<nat>) -> Seq<Op> {
    locals.map_values(|local: nat| Op::LocalGet(local))
}

impl WasmGenerator {
    /// Push a new local onto the call stack, adjusting the stack pointer and
    /// tracking the current function's frame size accordingly.
    /// - `include_repr` indicates if space should be reserved for the
    ///   representation of the value (e.g. the offset, length for an in-memory
    ///   type)
    /// - `include_value` indicates if space should be reserved for the value
    ///
    /// Returns a local which is a pointer to the beginning of the allocated
    /// stack space and the size of the allocated space.
    pub fn create_call_stack_local(
        &mut self,
        builder: &mut InstrSeqBuilder,
        ty: &TypeSignature,
        include_repr: bool,
        include_value: bool,
    ) -> (result: (LocalId, i32))
        requires
            old(self).wf(),
            old(builder).wf(),
            has_call_stack_size(*ty, include_repr, include_value),
            old(self)@.frame_size + call_stack_size(*ty, include_repr, include_value) <= i32::MAX,
        ensures
            final(self).wf(),
            local_index(result.0) == old(self)@.next_local(),
            result.1 == call_stack_size(*ty, include_repr, include_value),
            final(self)@ == old(self)@.with_call_stack_local(
                call_stack_size(*ty, include_repr, include_value),
            ),
            stage(final(self)@, final(builder)@).grew_from(stage(old(self)@, old(builder)@)),
            final(builder).extended(
                *old(builder),
                call_stack_ops(
                    old(self)@.stack_pointer,
                    old(self)@.next_local(),
                    call_stack_size(*ty, include_repr, include_value) as i32,
                ),
            ),
    {
        proof {
            lemma_emit_all_nothing(builder@);
            let size = call_stack_size(*ty, include_repr, include_value);
            let ops = call_stack_ops(self@.stack_pointer, self@.next_local(), size as i32);
            lemma_emitted(self@, builder@, ops);
            reveal(GeneratorView::grew_from);
            lemma_generator_grew(
                self@,
                self@.with_call_stack_local(size),
                builder@.emit_all(ops),
            );
        }
        let size: i32 = if include_value {
            if include_repr {
                get_type_in_memory_size(ty, include_repr) + get_type_size(ty)
            } else {
                get_type_in_memory_size(ty, include_repr)
            }
        } else {
            get_type_size(ty)
        };

        // Save the offset (current stack pointer) into a local
        let offset = self.add_local(WasmType::I32);
        builder.global_get(self.stack_pointer);
        builder.local_tee(offset);

        // (global.set $stack-pointer (i32.add (global.get $stack-pointer) (i32.const <size>))
        builder.i32_const(size);
        builder.i32_add();
        builder.global_set(self.stack_pointer);
        self.frame_size = self.frame_size + size;

        (offset, size)
    }

    /// Save the expression on the top of the stack, with Clarity type `ty`, to
    /// local variables. If `fix_ordering` is true, then the vector is reversed
    /// so that the types are in logical order. Without this, they will be in
    /// reverse order, due to the order we pop values from the stack. Return
    /// the list of local variables.
    pub fn save_to_locals(
        &mut self,
        builder: &mut InstrSeqBuilder,
        ty: &TypeSignature,
        fix_ordering: bool,
    ) -> (result: Vec<LocalId>)
        requires
            old(self).wf(),
            old(builder).wf(),
        ensures
            final(self).wf(),
            final(self)@ == old(self)@.add_locals(wasm_repr(*ty).reverse()),
            stage(final(self)@, final(builder)@).grew_from(stage(old(self)@, old(builder)@)),
            final(builder).extended(
                *old(builder),
                pops_into(old(self)@.next_local(), wasm_repr(*ty).len()),
            ),
            local_indices(result@) == if fix_ordering {
                locals_from(old(self)@.next_local(), wasm_repr(*ty).len()).reverse()
            } else {
                locals_from(old(self)@.next_local(), wasm_repr(*ty).len())
            },
    {
        let wasm_types = clar2wasm_ty(ty);
        let ghost first = old(self)@.next_local();
        let ghost reversed = wasm_repr(*ty).reverse();
        let mut locals: Vec<LocalId> = Vec::new();
        proof {
            let ops = pops_into(first, wasm_repr(*ty).len());
            lemma_emitted(self@, builder@, ops);
            lemma_locals_added(self@, reversed, builder@.emit_all(ops));
            lemma_emit_all_nothing(builder@);
            assert(pops_into(first, 0) =~= Seq::empty());
            assert(reversed.take(0) =~= Seq::empty());
        }
        // Iterate in reverse order, since we are popping items off of the top
        // in reverse order.
        let mut i: usize = wasm_types.len();
        while i > 0
            invariant
                i <= wasm_types@.len(),
                wasm_types@ == wasm_repr(*ty),
                reversed == wasm_repr(*ty).reverse(),
                first == old(self)@.next_local(),
                locals@.len() == wasm_types@.len() - i,
                self.wf(),
                old(builder).wf(),
                self@ == old(self)@.add_locals(reversed.take(wasm_types@.len() - i)),
                builder.extended(*old(builder), pops_into(first, (wasm_types@.len() - i) as nat)),
                local_indices(locals@) == locals_from(first, (wasm_types@.len() - i) as nat),
            decreases i,
        {
            i -= 1;
            let ghost before = locals@;
            let ghost done = (wasm_types@.len() - i - 1) as nat;
            let local = self.add_local(wasm_types[i]);
            locals.push(local);
            builder.local_set(local);
            proof {
                assert(reversed.take((done + 1) as int) =~= reversed.take(done as int).push(
                    wasm_types@[i as int],
                ));
                assert(pops_into(first, done + 1) =~= pops_into(first, done).push(
                    Op::LocalSet(first + done),
                ));
                assert(local_indices(locals@) =~= local_indices(before).push(first + done));
                assert(locals_from(first, done + 1) =~= locals_from(first, done).push(
                    first + done,
                ));
            }
        }
        proof {
            assert(reversed.take(wasm_types@.len() as int) =~= reversed);
        }
        if fix_ordering {
            // Reverse the locals to put them back in the correct order.
            return reverse_locals(&locals);
        }
        locals
    }
}

/// The locals of a list in the opposite order.
fn reverse_locals(locals: &Vec<LocalId>) -> (result: Vec<LocalId>)
    ensures
        local_indices(result@) == local_indices(locals@).reverse(),
{
    let mut result: Vec<LocalId> = Vec::new();
    let mut i: usize = locals.len();
    while i > 0
        invariant
            i <= locals@.len(),
            result@ == locals@.reverse().take(locals@.len() - i),
        decreases i,
    {
        i -= 1;
        result.push(locals[i]);
        assert(locals@.reverse().take(locals@.len() - i) =~= locals@.reverse().take(
            locals@.len() - i - 1,
        ).push(locals@[i as int]));
    }
    assert(result@ =~= locals@.reverse());
    assert(local_indices(result@) =~= local_indices(locals@).reverse());
    result
}

} // verus!
