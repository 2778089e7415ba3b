//! What holds of every file the writer produces.

use crate::error::{lemma_first_fault, Emitted, Fault, Stage};
use crate::layout::{
    binary_value, element_block, element_blocks, field_width, header_bytes, invalid_index,
    property_line, property_lines, type_tokens,
};
use crate::ply::{ElementDefView, HeaderView, PropertyDefView, PropertyType, Value};
use crate::wire::{
    be_value, lemma_be_bytes, lemma_le_bytes, lemma_pow256, pow256, twos_complement, Endian,
};
use vstd::prelude::*;

verus! {

/// The declared type that a scalar value is an instance of.
pub open spec fn scalar_type(value: Value) -> PropertyType
    recommends
        !(value is List),
{
    match value {
        Value::Char(_) => PropertyType::Char,
        Value::UChar(_) => PropertyType::UChar,
        Value::Short(_) => PropertyType::Short,
        Value::UShort(_) => PropertyType::UShort,
        Value::Int(_) => PropertyType::Int,
        Value::UInt(_) => PropertyType::UInt,
        Value::Float(_, _) => PropertyType::Float,
        _ => PropertyType::Double,
    }
}

/// The bit pattern of a scalar value, as an unsigned number: an integer in
/// two's complement, a floating-point number by its IEEE-754 bits.
pub open spec fn scalar_bits(value: Value) -> nat
    recommends
        !(value is List),
{
    match value {
        Value::Char(v) => twos_complement(v as int, 1),
        Value::UChar(v) => v as nat,
        Value::Short(v) => twos_complement(v as int, 2),
        Value::UShort(v) => v as nat,
        Value::Int(v) => twos_complement(v as int, 4),
        Value::UInt(v) => v as nat,
        Value::Float(bits, _) => bits as nat,
        Value::Double(bits, _) => bits as nat,
        Value::List(_) => 0,
    }
}

/// A scalar is always written, whatever type is declared for it, as a
/// field of the width of its own kind: one byte for char and uchar, two
/// for short and ushort, four for int, uint and float, eight for double.
/// In big-endian order the bytes spell the bit pattern most significant
/// byte first; in little-endian order they are the same bytes reversed.
pub proof fn law_scalar_field(value: Value, data_type: PropertyType, order: Endian)
    requires
        !(value is List),
    ensures
        binary_value(value, data_type, order).fault is None,
        binary_value(value, data_type, order).bytes.len() == field_width(scalar_type(value)),
        field_width(scalar_type(value)) == 1 || field_width(scalar_type(value)) == 2
            || field_width(scalar_type(value)) == 4 || field_width(scalar_type(value)) == 8,
        be_value(binary_value(value, data_type, Endian::Big).bytes) == scalar_bits(value),
        binary_value(value, data_type, Endian::Little).bytes == binary_value(
            value,
            data_type,
            Endian::Big,
        ).bytes.reverse(),
{
    let width = field_width(scalar_type(value));
    let bits = scalar_bits(value);
    lemma_pow256();
    lemma_be_bytes(bits, width);
    lemma_le_bytes(bits, width);
    assert(bits % pow256(width) == bits) by {
        vstd::arithmetic::div_mod::lemma_small_mod(bits, pow256(width));
    }
}

/// Whether every list in a type counts its items with an integer type.
pub open spec fn valid_type(data_type: PropertyType) -> bool
    decreases data_type,
{
    match data_type {
        PropertyType::List(index_type, item_type) => invalid_index(*index_type) is None
            && valid_type(*item_type),
        _ => true,
    }
}

/// In the header, a list whose index type is float, double or a list
/// stops its property line with `InvalidListIndexType` naming that type,
/// after the word `list`.
pub proof fn law_invalid_index_in_header(
    name: Seq<char>,
    index_type: PropertyType,
    item_type: PropertyType,
    newline: Seq<u8>,
)
    requires
        index_type is Float || index_type is Double || index_type is List,
    ensures
        invalid_index(index_type) is Some,
        property_line(
            PropertyDefView {
                name,
                data_type: PropertyType::List(Box::new(index_type), Box::new(item_type)),
            },
            newline,
        ).fault == Some(
            Fault::InvalidListIndexType {
                found: invalid_index(index_type).unwrap(),
                stage: Stage::Header,
            },
        ),
{
}

/// In a binary payload, a list value under a list type whose index type
/// is float, double or a list stops with `InvalidListIndexType` naming
/// that type, and nothing of the field is written.
pub proof fn law_invalid_index_in_payload(
    items: Seq<Value>,
    index_type: PropertyType,
    item_type: PropertyType,
    order: Endian,
)
    requires
        index_type is Float || index_type is Double || index_type is List,
    ensures
        invalid_index(index_type) is Some,
        binary_value(
            Value::List(items),
            PropertyType::List(Box::new(index_type), Box::new(item_type)),
            order,
        ) == Emitted::fail(
            Fault::InvalidListIndexType {
                found: invalid_index(index_type).unwrap(),
                stage: Stage::Payload,
            },
        ),
{
}

/// The type tokens are written in full exactly for a valid type, and
/// nothing but an invalid list index type stops them.
pub proof fn law_type_tokens(data_type: PropertyType)
    ensures
        type_tokens(data_type).fault is None <==> valid_type(data_type),
        type_tokens(data_type).fault matches Some(fault) ==> fault is InvalidListIndexType
            && fault->stage == Stage::Header,
    decreases data_type,
{
    match data_type {
        PropertyType::List(index_type, item_type) => {
            law_type_tokens(*item_type);
        },
        _ => {},
    }
}

/// Whether every property that a header declares has a valid type.
pub open spec fn valid_header(header: HeaderView) -> bool {
    forall|i: int, j: int|
        0 <= i < header.elements.len() && 0 <= j < header.elements[i].1.properties.len()
            ==> valid_type((#[trigger] header.elements[i].1.properties[j]).1.data_type)
}

/// Whether every property of an element has a valid type.
pub open spec fn valid_element(element: ElementDefView) -> bool {
    forall|j: int|
        0 <= j < element.properties.len() ==> valid_type(
            (#[trigger] element.properties[j]).1.data_type,
        )
}

/// The block of an element is written in full exactly when every property
/// has a valid type, and nothing but an invalid list index type stops it.
pub proof fn law_element_block(element: ElementDefView, newline: Seq<u8>)
    ensures
        element_block(element, newline).fault is None <==> valid_element(element),
        element_block(element, newline).fault matches Some(fault) ==> fault
            is InvalidListIndexType && fault->stage == Stage::Header,
{
    let lines = property_lines(element.properties, newline);
    lemma_first_fault(lines, lines.len());
    assert forall|j: int| 0 <= j < lines.len() implies ((#[trigger] lines[j]).fault is None
        <==> valid_type(element.properties[j].1.data_type)) && (lines[j].fault matches Some(
        fault,
    ) ==> fault is InvalidListIndexType && fault->stage == Stage::Header) by {
        law_type_tokens(element.properties[j].1.data_type);
    }
    if valid_element(element) {
        assert forall|j: int| 0 <= j < lines.len() implies (#[trigger] lines[j]).fault is None by {
            assert(valid_type(element.properties[j].1.data_type));
        }
    } else {
        let j = choose|j: int|
            0 <= j < element.properties.len() && !valid_type(
                (#[trigger] element.properties[j]).1.data_type,
            );
        assert(lines[j].fault is Some);
    }
}

/// The header is written in full exactly when every declared property has
/// a valid type, and nothing but an invalid list index type stops it.
pub proof fn law_header_success(header: HeaderView, newline: Seq<u8>)
    ensures
        header_bytes(header, newline).fault is None <==> valid_header(header),
        header_bytes(header, newline).fault matches Some(fault) ==> fault
            is InvalidListIndexType && fault->stage == Stage::Header,
{
    let blocks = element_blocks(header.elements, newline);
    lemma_first_fault(blocks, blocks.len());
    assert forall|i: int| 0 <= i < blocks.len() implies ((#[trigger] blocks[i]).fault is None
        <==> valid_element(header.elements[i].1)) && (blocks[i].fault matches Some(fault)
        ==> fault is InvalidListIndexType && fault->stage == Stage::Header) by {
        law_element_block(header.elements[i].1, newline);
    }
    if valid_header(header) {
        assert forall|i: int| 0 <= i < blocks.len() implies (#[trigger] blocks[i]).fault
            is None by {
            assert forall|j: int| 0 <= j < header.elements[i].1.properties.len() implies valid_type(
                (#[trigger] header.elements[i].1.properties[j]).1.data_type,
            ) by {}
        }
    } else {
        let (i, j) = choose|i: int, j: int|
            0 <= i < header.elements.len() && 0 <= j < header.elements[i].1.properties.len()
                && !valid_type((#[trigger] header.elements[i].1.properties[j]).1.data_type);
        assert(!valid_element(header.elements[i].1));
        assert(blocks[i].fault is Some);
    }
}

} // verus!
