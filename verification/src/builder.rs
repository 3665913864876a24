//! The rules of the builder: which slot a field gets and which setters fill it.
//!
//! Every field of the struct gets one slot in the builder and one setter of its own
//! name. A field whose type names `Option` is optional: its slot has the field's type,
//! and its setter takes what the `Option` holds. A field marked `each = "name"` gets a
//! second setter that adds one item to its vector.

use crate::generics::{first_segment_named, Arguments, TypePath};
use vstd::prelude::*;
use vstd::string::StringExecFns;

verus! {

/// The slot of one field.
#[derive(Clone, Copy, Debug, PartialEq, Eq, Structural)]
pub enum Slot {
    /// The field has to be set: the slot wraps the field's type in an `Option`, and the
    /// setter takes the field's type.
    Required,
    /// The field's type names `Option` at this segment: the slot has the field's type.
    /// With `holds_inner` the setter takes the arguments of that segment, else the
    /// field's type.
    Optional { segment: usize, holds_inner: bool },
}

/// The name of the type that makes a field optional.
pub open spec fn option_name() -> Seq<char> {
    "Option"@
}

/// The name of the type that an item setter fills.
pub open spec fn vector_name() -> Seq<char> {
    "Vec"@
}

/// The segment at place `k` is the first that has the name `name`.
pub open spec fn first_named(ty: TypePath, name: Seq<char>, k: int) -> bool {
    &&& 0 <= k < ty.segments.len()
    &&& ty.segments@[k].ident@ == name
    &&& forall|i: int| 0 <= i < k ==> ty.segments@[i].ident@ != name
}

/// No segment has the name `name`.
pub open spec fn never_named(ty: TypePath, name: Seq<char>) -> bool {
    forall|i: int| 0 <= i < ty.segments.len() ==> ty.segments@[i].ident@ != name
}

/// The slot for a field of the type `ty`.
///
/// Optional exactly where a segment is named `Option`, at the first such segment; the
/// setter takes the inner type exactly where that segment has arguments in angle
/// brackets.
pub fn slot_of(ty: &TypePath) -> (slot: Slot)
    ensures
        match slot {
            Slot::Required => never_named(*ty, option_name()),
            Slot::Optional { segment, holds_inner } => {
                &&& first_named(*ty, option_name(), segment as int)
                &&& holds_inner == (ty.segments@[segment as int].arguments is AngleBracketed)
            },
        },
{
    let name = String::from_str("Option");
    match first_segment_named(ty, &name) {
        None => Slot::Required,
        Some(segment) => {
            let holds_inner = match &ty.segments[segment].arguments {
                Arguments::AngleBracketed(_) => true,
                _ => false,
            };
            Slot::Optional { segment, holds_inner }
        },
    }
}

/// The attribute `builder(key = value)` on a field, as far as it is read: `value` is
/// `None` where the value is not written as a string.
#[derive(Debug, PartialEq, Eq)]
pub struct Attribute {
    pub key: String,
    pub value: Option<String>,
}

/// What the attribute on a field asks for.
#[derive(Clone, Copy, Debug, PartialEq, Eq, Structural)]
pub enum ItemSetter {
    /// The key is not `each`.
    UnexpectedKey,
    /// The value is not written as a string.
    ValueNotText,
    /// The name is the field's own: the field's setter stays the only one.
    SameAsField,
    /// The field's type is not written as a path.
    TypeNotPath,
    /// The field's type names no `Vec`.
    NotAVector,
    /// The `Vec` of the field's type has no arguments in angle brackets.
    VectorWithoutItem,
    /// A setter with the name of the attribute's value, which takes one item: the
    /// arguments of the segment `vector` of the field's type.
    Item { vector: usize },
}

/// The key that the attribute must have.
pub open spec fn each_key() -> Seq<char> {
    "each"@
}

/// What the attribute asks for, rule by rule: the first that applies decides.
pub open spec fn item_setter_of(
    field: Seq<char>,
    attribute: Attribute,
    ty: Option<TypePath>,
    answer: ItemSetter,
) -> bool {
    if attribute.key@ != each_key() {
        answer == ItemSetter::UnexpectedKey
    } else if attribute.value is None {
        answer == ItemSetter::ValueNotText
    } else if attribute.value->Some_0@ == field {
        answer == ItemSetter::SameAsField
    } else if ty is None {
        answer == ItemSetter::TypeNotPath
    } else if never_named(ty->Some_0, vector_name()) {
        answer == ItemSetter::NotAVector
    } else {
        match answer {
            ItemSetter::Item { vector } => {
                &&& first_named(ty->Some_0, vector_name(), vector as int)
                &&& ty->Some_0.segments@[vector as int].arguments is AngleBracketed
            },
            ItemSetter::VectorWithoutItem => exists|k: int|
                first_named(ty->Some_0, vector_name(), k) && !(
                ty->Some_0.segments@[k].arguments is AngleBracketed),
            _ => false,
        }
    }
}

/// Decides what the attribute on the field `field` asks for; `ty` is the field's type
/// where it is written as a path.
pub fn item_setter(field: &String, attribute: &Attribute, ty: Option<&TypePath>) -> (answer:
    ItemSetter)
    ensures
        item_setter_of(
            field@,
            *attribute,
            match ty {
                Some(t) => Some(*t),
                None => None,
            },
            answer,
        ),
{
    let each = String::from_str("each");
    if attribute.key != each {
        return ItemSetter::UnexpectedKey;
    }
    let name = match &attribute.value {
        None => {
            return ItemSetter::ValueNotText;
        },
        Some(name) => name,
    };
    if *name == *field {
        return ItemSetter::SameAsField;
    }
    let ty = match ty {
        None => {
            return ItemSetter::TypeNotPath;
        },
        Some(ty) => ty,
    };
    let vec = String::from_str("Vec");
    match first_segment_named(ty, &vec) {
        None => ItemSetter::NotAVector,
        Some(vector) => match &ty.segments[vector].arguments {
            Arguments::AngleBracketed(_) => ItemSetter::Item { vector },
            _ => {
                assert(first_named(*ty, vector_name(), vector as int));
                ItemSetter::VectorWithoutItem
            },
        },
    }
}

} // verus!
