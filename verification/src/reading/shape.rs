//! What a reader must know of the declared elements to read their rows,
//! and what values it can read under a declared type.

use crate::layout::{field_width, invalid_index};
use crate::ply::{ElementDefView, PropertyDefView, PropertyType, Value};
use crate::wire::pow256;
use vstd::prelude::*;

verus! {

/// The shape of the rows of one element: how many there are, and the
/// types of the values of each.
pub struct Shape {
    pub count: nat,
    pub types: Seq<PropertyType>,
}

/// The declared types of properties, in order.
pub open spec fn types_of(properties: Seq<(Seq<char>, PropertyDefView)>) -> Seq<PropertyType> {
    Seq::new(properties.len(), |i: int| properties[i].1.data_type)
}

/// The shape that a definition gives the rows of its element.
pub open spec fn shape_of(element_def: ElementDefView) -> Shape {
    Shape { count: element_def.count, types: types_of(element_def.properties) }
}

/// The shapes of the declared elements, in order.
pub open spec fn shapes_of(elements: Seq<(Seq<char>, ElementDefView)>) -> Seq<Shape> {
    Seq::new(elements.len(), |i: int| shape_of(elements[i].1))
}

/// Whether a type reads its numbers as signed.
pub open spec fn is_signed(data_type: PropertyType) -> bool {
    data_type is Char || data_type is Short || data_type is Int
}

/// The largest length that a list may have for its count to be read back
/// as written.
pub open spec fn max_count(index_type: PropertyType) -> nat
    recommends
        invalid_index(index_type) is None,
{
    if is_signed(index_type) {
        (pow256(field_width(index_type)) / 2 - 1) as nat
    } else {
        (pow256(field_width(index_type)) - 1) as nat
    }
}

/// Whether a value is of the declared type: a scalar of that very kind, or
/// a list of a list type with an integer index type that can hold its
/// length, each item of the item type.
pub open spec fn has_type(value: Value, data_type: PropertyType) -> bool
    decreases value,
{
    match value {
        Value::Char(_) => data_type is Char,
        Value::UChar(_) => data_type is UChar,
        Value::Short(_) => data_type is Short,
        Value::UShort(_) => data_type is UShort,
        Value::Int(_) => data_type is Int,
        Value::UInt(_) => data_type is UInt,
        Value::Float(_, _) => data_type is Float,
        Value::Double(_, _) => data_type is Double,
        Value::List(items) => match data_type {
            PropertyType::List(index_type, item_type) => {
                &&& invalid_index(*index_type) is None
                &&& items.len() <= max_count(*index_type)
                &&& forall|i: int|
                    0 <= i < items.len() ==> has_type(#[trigger] items[i], *item_type)
            },
            _ => false,
        },
    }
}

} // verus!
