//! The types of tuples. Their fields are kept in the order of their names.
use vstd::prelude::*;
use vstd::utf8::encode_utf8;

use crate::types::{TupleTypeSignature, TypeSignature};

verus! {

/// Whether bytes come before others in the order of a dictionary.
pub open spec fn bytes_before(left: Seq<u8>, right: Seq<u8>) -> bool
    decreases left.len(),
{
    if right.len() == 0 {
        false
    } else if left.len() == 0 {
        true
    } else if left[0] == right[0] {
        bytes_before(left.skip(1), right.skip(1))
    } else {
        left[0] < right[0]
    }
}

/// Whether a name comes before another.
pub open spec fn name_before(left: Seq<char>, right: Seq<char>) -> bool {
    bytes_before(encode_utf8(left), encode_utf8(right))
}

/// Of different bytes one comes before the other, and not the other way round.
proof fn lemma_bytes_are_ordered(left: Seq<u8>, right: Seq<u8>)
    ensures
        left == right ==> !bytes_before(left, right),
        left != right ==> bytes_before(left, right) != bytes_before(right, left),
    decreases left.len(),
{
    if left.len() > 0 && right.len() > 0 {
        lemma_bytes_are_ordered(left.skip(1), right.skip(1));
        if left[0] == right[0] && left.skip(1) == right.skip(1) {
            assert(left =~= seq![left[0]] + left.skip(1));
            assert(right =~= seq![right[0]] + right.skip(1));
        }
    } else if left.len() == 0 && right.len() == 0 {
        assert(left =~= right);
    }
}

proof fn lemma_bytes_before_is_transitive(a: Seq<u8>, b: Seq<u8>, c: Seq<u8>)
    requires
        bytes_before(a, b),
        bytes_before(b, c),
    ensures
        bytes_before(a, c),
    decreases a.len(),
{
    if a.len() > 0 && a[0] == b[0] && b[0] == c[0] {
        lemma_bytes_before_is_transitive(a.skip(1), b.skip(1), c.skip(1));
    }
}

/// Whether fields are in the order of their names, with no name twice.
pub open spec fn in_name_order(fields: Seq<(String, TypeSignature)>) -> bool {
    forall|i: int, j: int|
        0 <= i < j < fields.len() ==> name_before((#[trigger] fields[i]).0@, (
        #[trigger] fields[j]).0@)
}

/// The fields of a tuple by name.
pub open spec fn field_types(fields: Seq<(String, TypeSignature)>) -> Map<
    Seq<char>,
    TypeSignature,
> {
    Map::new(
        |name: Seq<char>| exists|i: int| 0 <= i < fields.len() && (#[trigger] fields[i]).0@ == name,
        |name: Seq<char>|
            fields[choose|i: int| 0 <= i < fields.len() && (#[trigger] fields[i]).0@ == name].1,
    )
}

/// In order, a name is found at one place only.
proof fn lemma_field_is_found(fields: Seq<(String, TypeSignature)>, i: int)
    requires
        in_name_order(fields),
        0 <= i < fields.len(),
    ensures
        field_types(fields).contains_key(fields[i].0@),
        field_types(fields)[fields[i].0@] == fields[i].1,
{
    let name = fields[i].0@;
    let k = choose|k: int| 0 <= k < fields.len() && (#[trigger] fields[k]).0@ == name;
    lemma_bytes_are_ordered(encode_utf8(name), encode_utf8(name));
    if k < i {
        assert(name_before(fields[k].0@, fields[i].0@));
    } else if i < k {
        assert(name_before(fields[i].0@, fields[k].0@));
    }
}

/// How two names stand to each other.
enum NameOrder {
    Before,
    Same,
    After,
}

/// How two names stand to each other.
fn order_names(left: &str, right: &str) -> (order: NameOrder)
    ensures
        order is Before <==> name_before(left@, right@),
        order is After <==> name_before(right@, left@),
        order is Same <==> left@ == right@,
{
    let left_bytes = left.as_bytes();
    let right_bytes = right.as_bytes();
    proof {
        lemma_bytes_are_ordered(left_bytes@, right_bytes@);
        vstd::utf8::encode_utf8_decode_utf8(left@);
        vstd::utf8::encode_utf8_decode_utf8(right@);
        assert(left_bytes@.skip(0) =~= left_bytes@);
        assert(right_bytes@.skip(0) =~= right_bytes@);
    }
    let mut i: usize = 0;
    while i < left_bytes.len() && i < right_bytes.len()
        invariant
            i <= left_bytes@.len(),
            i <= right_bytes@.len(),
            left_bytes@ == encode_utf8(left@),
            right_bytes@ == encode_utf8(right@),
            left_bytes@ == right_bytes@ ==> left@ == right@,
            left_bytes@.take(i as int) == right_bytes@.take(i as int),
            name_before(left@, right@) == bytes_before(
                left_bytes@.skip(i as int),
                right_bytes@.skip(i as int),
            ),
            name_before(right@, left@) == bytes_before(
                right_bytes@.skip(i as int),
                left_bytes@.skip(i as int),
            ),
        decreases left_bytes@.len() - i,
    {
        proof {
            assert(left_bytes@.skip(i as int).skip(1) =~= left_bytes@.skip(i + 1));
            assert(right_bytes@.skip(i as int).skip(1) =~= right_bytes@.skip(i + 1));
            assert(left_bytes@.take(i + 1) =~= left_bytes@.take(i as int).push(
                left_bytes@[i as int],
            ));
            assert(right_bytes@.take(i + 1) =~= right_bytes@.take(i as int).push(
                right_bytes@[i as int],
            ));
        }
        if left_bytes[i] < right_bytes[i] {
            proof {
                lemma_bytes_are_ordered(left_bytes@, right_bytes@);
            }
            return NameOrder::Before;
        }
        if right_bytes[i] < left_bytes[i] {
            proof {
                lemma_bytes_are_ordered(left_bytes@, right_bytes@);
            }
            return NameOrder::After;
        }
        i += 1;
    }
    proof {
        lemma_bytes_are_ordered(left_bytes@, right_bytes@);
    }
    if i < right_bytes.len() {
        NameOrder::Before
    } else if i < left_bytes.len() {
        NameOrder::After
    } else {
        proof {
            assert(left_bytes@ =~= left_bytes@.take(i as int));
            assert(right_bytes@ =~= right_bytes@.take(i as int));
        }
        NameOrder::Same
    }
}

impl TupleTypeSignature {
    /// The type of the tuple without fields.
    pub fn new() -> (tuple: TupleTypeSignature)
        ensures
            in_name_order(tuple@),
            field_types(tuple@) == Map::<Seq<char>, TypeSignature>::empty(),
    {
        let tuple = TupleTypeSignature { fields: Vec::new() };
        assert(field_types(tuple@) =~= Map::empty());
        tuple
    }

    /// The fields, in the order of their names.
    pub fn fields(&self) -> (fields: &Vec<(String, TypeSignature)>)
        ensures
            fields@ == self@,
            in_name_order(fields@),
    {
        proof {
            use_type_invariant(self);
        }
        &self.fields
    }

    /// Gives a field a type. The field comes after those whose names come before its own.
    pub fn insert(&mut self, name: String, ty: TypeSignature)
        ensures
            in_name_order(final(self)@),
            field_types(final(self)@) == field_types(old(self)@).insert(name@, ty),
    {
        proof {
            use_type_invariant(&*self);
        }
        let mut fields: Vec<(String, TypeSignature)> = Vec::new();
        std::mem::swap(&mut self.fields, &mut fields);
        insert_field(&mut fields, name, ty);
        self.fields = fields;
    }
}

/// Gives a field of a list a type, and keeps the list in order.
fn insert_field(fields: &mut Vec<(String, TypeSignature)>, name: String, ty: TypeSignature)
    requires
        in_name_order(old(fields)@),
    ensures
        in_name_order(final(fields)@),
        field_types(final(fields)@) == field_types(old(fields)@).insert(name@, ty),
{
    let ghost before = fields@;
    let mut i: usize = 0;
    while i < fields.len()
        invariant
            before == fields@,
            fields@ == old(fields)@,
            i <= before.len(),
            in_name_order(before),
            forall|j: int| 0 <= j < i ==> name_before((#[trigger] before[j]).0@, name@),
        decreases before.len() - i,
    {
        match order_names(fields[i].0.as_str(), name.as_str()) {
            NameOrder::Before => {},
            NameOrder::Same => {
                fields.set(i, (name, ty));
                proof {
                    lemma_replaced(before, i as int, (name, ty));
                }
                return;
            },
            NameOrder::After => {
                fields.insert(i, (name, ty));
                proof {
                    lemma_inserted(before, i as int, (name, ty));
                }
                return;
            },
        }
        i += 1;
    }
    fields.push((name, ty));
    proof {
        assert(fields@ =~= before.insert(i as int, (name, ty)));
        lemma_inserted(before, i as int, (name, ty));
    }
}

/// A field that is put between those before it and those after it.
proof fn lemma_inserted(
    fields: Seq<(String, TypeSignature)>,
    at: int,
    field: (String, TypeSignature),
)
    requires
        in_name_order(fields),
        0 <= at <= fields.len(),
        forall|j: int| 0 <= j < at ==> name_before((#[trigger] fields[j]).0@, field.0@),
        at < fields.len() ==> name_before(field.0@, fields[at].0@),
    ensures
        in_name_order(fields.insert(at, field)),
        field_types(fields.insert(at, field)) == field_types(fields).insert(field.0@, field.1),
{
    let after = fields.insert(at, field);
    assert forall|i: int, j: int| 0 <= i < j < after.len() implies name_before(
        (#[trigger] after[i]).0@,
        (#[trigger] after[j]).0@,
    ) by {
        let old_j = j - 1;
        if j < at {
            assert(name_before(fields[i].0@, fields[j].0@));
        } else if i == at {
            if old_j > at {
                assert(name_before(fields[at].0@, fields[old_j].0@));
                lemma_bytes_before_is_transitive(
                    encode_utf8(field.0@),
                    encode_utf8(fields[at].0@),
                    encode_utf8(fields[old_j].0@),
                );
            }
        } else if j > at {
            if i < at {
                assert(name_before(fields[i].0@, fields[old_j].0@));
            } else {
                assert(name_before(fields[i - 1].0@, fields[old_j].0@));
            }
        }
    }
    lemma_same_fields(fields, after, at, field);
}

/// A field that takes the place of the one of the same name.
proof fn lemma_replaced(
    fields: Seq<(String, TypeSignature)>,
    at: int,
    field: (String, TypeSignature),
)
    requires
        in_name_order(fields),
        0 <= at < fields.len(),
        fields[at].0@ == field.0@,
    ensures
        in_name_order(fields.update(at, field)),
        field_types(fields.update(at, field)) == field_types(fields).insert(field.0@, field.1),
{
    let after = fields.update(at, field);
    assert forall|i: int, j: int| 0 <= i < j < after.len() implies name_before(
        (#[trigger] after[i]).0@,
        (#[trigger] after[j]).0@,
    ) by {
        assert(name_before(fields[i].0@, fields[j].0@));
    }
    let left = field_types(after);
    let right = field_types(fields).insert(field.0@, field.1);
    assert forall|name: Seq<char>| #[trigger] left.contains_key(name) == right.contains_key(
        name,
    ) by {
        if left.contains_key(name) {
            let i = choose|i: int| 0 <= i < after.len() && (#[trigger] after[i]).0@ == name;
            assert(fields[i].0@ == name);
        }
        if right.contains_key(name) {
            if name == field.0@ {
                assert(after[at].0@ == name);
            } else {
                let i = choose|i: int| 0 <= i < fields.len() && (#[trigger] fields[i]).0@ == name;
                assert(after[i].0@ == name);
            }
        }
    }
    assert forall|name: Seq<char>| #[trigger] left.contains_key(name) implies left[name]
        == right[name] by {
        let i = choose|i: int| 0 <= i < after.len() && (#[trigger] after[i]).0@ == name;
        lemma_field_is_found(after, i);
        if i != at {
            lemma_bytes_are_ordered(encode_utf8(name), encode_utf8(name));
            assert(name != field.0@) by {
                if i < at {
                    assert(name_before(fields[i].0@, fields[at].0@));
                } else {
                    assert(name_before(fields[at].0@, fields[i].0@));
                }
            }
            lemma_field_is_found(fields, i);
        }
    }
    assert(left =~= right);
}

/// The fields by name after one was put in.
proof fn lemma_same_fields(
    fields: Seq<(String, TypeSignature)>,
    after: Seq<(String, TypeSignature)>,
    at: int,
    field: (String, TypeSignature),
)
    requires
        in_name_order(fields),
        0 <= at <= fields.len(),
        after == fields.insert(at, field),
        in_name_order(after),
    ensures
        field_types(after) == field_types(fields).insert(field.0@, field.1),
{
    let left = field_types(after);
    let right = field_types(fields).insert(field.0@, field.1);
    assert forall|name: Seq<char>| #[trigger] left.contains_key(name) == right.contains_key(
        name,
    ) by {
        if left.contains_key(name) {
            let i = choose|i: int| 0 <= i < after.len() && (#[trigger] after[i]).0@ == name;
            if i < at {
                assert(fields[i].0@ == name);
            } else if i > at {
                assert(fields[i - 1].0@ == name);
            }
        }
        if right.contains_key(name) {
            if name == field.0@ {
                assert(after[at].0@ == name);
            } else {
                let i = choose|i: int| 0 <= i < fields.len() && (#[trigger] fields[i]).0@ == name;
                if i < at {
                    assert(after[i].0@ == name);
                } else {
                    assert(after[i + 1].0@ == name);
                }
            }
        }
    }
    assert forall|name: Seq<char>| #[trigger] left.contains_key(name) implies left[name]
        == right[name] by {
        let i = choose|i: int| 0 <= i < after.len() && (#[trigger] after[i]).0@ == name;
        lemma_field_is_found(after, i);
        if i != at {
            let old_i = if i < at {
                i
            } else {
                i - 1
            };
            assert(after[i] == fields[old_i]);
            lemma_bytes_are_ordered(encode_utf8(name), encode_utf8(name));
            if i < at {
                assert(name_before(after[i].0@, after[at].0@));
            } else {
                assert(name_before(after[at].0@, after[i].0@));
            }
            lemma_field_is_found(fields, old_i);
        }
    }
    assert(left =~= right);
}

} // verus!
