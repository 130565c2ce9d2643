//! Clarity types, as far as the generator reads them.
use std::rc::Rc;
use vstd::prelude::*;

use crate::tuple::in_name_order;

verus! {

/// The type of a Clarity value.
#[derive(Debug)]
pub enum TypeSignature {
    /// The type of a value that is never there, such as the other side of an
    /// `(ok ...)` whose error type is not known.
    NoType,
    IntType,
    UIntType,
    BoolType,
    SequenceType(SequenceSubtype),
    PrincipalType,
    TupleType(TupleTypeSignature),
    OptionalType(Box<TypeSignature>),
    /// The type of the `ok` value, then that of the `err` value.
    ResponseType(Box<(TypeSignature, TypeSignature)>),
    CallableType,
    /// A union of callables, which only exists while types are checked.
    ListUnionType,
    TraitReferenceType,
}

/// The type of a value with a length.
#[derive(Debug)]
pub enum SequenceSubtype {
    /// A buffer of at most this many bytes.
    BufferType(u32),
    ListType(ListTypeData),
    StringType(StringSubtype),
}

/// The type of a string.
#[derive(Debug)]
pub enum StringSubtype {
    /// At most this many ASCII characters.
    ASCII(u32),
    /// At most this many Unicode scalar values.
    UTF8(u32),
}

/// The type of a list.
#[derive(Debug)]
pub struct ListTypeData {
    pub max_len: u32,
    pub entry_type: Rc<TypeSignature>,
}

/// The type of a tuple: the names of its fields and their types, in the order of the names.
#[derive(Debug)]
pub struct TupleTypeSignature {
    pub(crate) fields: Vec<(String, TypeSignature)>,
}

impl TupleTypeSignature {
    #[verifier::type_invariant]
    pub(crate) open spec fn is_in_order(self) -> bool {
        in_name_order(self.fields@)
    }

    pub open(crate) spec fn view(&self) -> Seq<(String, TypeSignature)> {
        self.fields@
    }
}

/// A parameter of a function.
#[derive(Debug)]
pub struct FunctionArg {
    pub name: String,
    pub signature: Rc<TypeSignature>,
}

/// A function with a fixed list of parameters.
#[derive(Debug)]
pub struct FixedFunction {
    pub args: Vec<FunctionArg>,
    pub returns: Rc<TypeSignature>,
}

/// The type of a function.
#[derive(Debug)]
pub enum FunctionType {
    Fixed(Rc<FixedFunction>),
    /// Any function type that a contract cannot define.
    Other,
}

/// Whether a value of the type can exist at run time: no part of it is a union
/// of callables.
pub open spec fn is_value_type(ty: TypeSignature) -> bool
    decreases ty, 0int,
{
    match ty {
        TypeSignature::ListUnionType => false,
        TypeSignature::OptionalType(inner) => is_value_type(*inner),
        TypeSignature::ResponseType(inner) => is_value_type(inner.0) && is_value_type(inner.1),
        TypeSignature::TupleType(tuple) => are_value_types(tuple@, tuple@.len()),
        _ => true,
    }
}

/// Whether the first `n` fields can hold values.
pub open spec fn are_value_types(fields: Seq<(String, TypeSignature)>, n: nat) -> bool
    decreases fields, n,
{
    n == 0 || n > fields.len() || (are_value_types(fields, (n - 1) as nat) && is_value_type(
        fields[n - 1].1,
    ))
}

/// Whether a value of the type can exist at run time.
pub fn is_value(ty: &TypeSignature) -> (result: bool)
    ensures
        result == is_value_type(*ty),
    decreases *ty, 0int,
{
    match ty {
        TypeSignature::ListUnionType => false,
        TypeSignature::OptionalType(inner) => is_value(inner),
        TypeSignature::ResponseType(inner) => is_value(&inner.0) && is_value(&inner.1),
        TypeSignature::TupleType(tuple) => are_values(tuple.fields()),
        _ => true,
    }
}

/// Whether all fields of a tuple can hold values.
fn are_values(fields: &Vec<(String, TypeSignature)>) -> (result: bool)
    ensures
        result == are_value_types(fields@, fields@.len()),
    decreases fields@, fields@.len(),
{
    let mut i: usize = 0;
    while i < fields.len()
        invariant
            i <= fields@.len(),
            are_value_types(fields@, i as nat),
        decreases fields@.len() - i,
    {
        if !is_value(&fields[i].1) {
            proof {
                lemma_fields_stay_invalid(fields@, (i + 1) as nat, fields@.len());
            }
            return false;
        }
        i += 1;
    }
    true
}

/// A field that cannot hold a value stays one when fields are added.
pub proof fn lemma_fields_stay_invalid(fields: Seq<(String, TypeSignature)>, n: nat, m: nat)
    requires
        n <= m <= fields.len(),
        !are_value_types(fields, n),
    ensures
        !are_value_types(fields, m),
    decreases m,
{
    if n < m {
        lemma_fields_stay_invalid(fields, n, (m - 1) as nat);
    }
}

/// The type that a pointer points to.
pub open spec fn pointee(ty: Rc<TypeSignature>) -> TypeSignature {
    *ty
}

/// Another pointer to the same shared value.
///
/// Trusted: `<std::rc::Rc<T> as Clone>::clone` returns a pointer to the allocation
/// that its argument points to, so both point to the same value.
#[verifier::external_body]
pub(crate) fn share<T>(value: &Rc<T>) -> (result: Rc<T>)
    ensures
        result == *value,
{
    Rc::clone(value)
}

} // verus!
