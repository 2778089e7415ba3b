//! The bytes of a PLY file, stated as functions of the document.
//!
//! The header is text in every encoding. A payload row is either a line of
//! text or fixed-width fields laid end to end.

use crate::convert::ToElement;
use crate::decimal::{decimal, signed_decimal};
use crate::error::{Emitted, Fault, IndexKind, Stage};
use crate::keymap::lookup;
use crate::ply::{
    ElementDefView, ElementView, Encoding, HeaderView, PropertyDefView, PropertyType, Value,
    Version,
};
use crate::wire::{pow256, signed_field, unsigned_field, Endian};
use vstd::prelude::*;
use vstd::utf8::encode_utf8;

verus! {

/// The bytes of a text.
pub open spec fn text(chars: Seq<char>) -> Seq<u8> {
    encode_utf8(chars)
}

/// The keyword that names an encoding in the format line.
pub open spec fn encoding_keyword(encoding: Encoding) -> Seq<char> {
    match encoding {
        Encoding::Ascii => "ascii"@,
        Encoding::BinaryBigEndian => "binary_big_endian"@,
        Encoding::BinaryLittleEndian => "binary_little_endian"@,
    }
}

/// The keyword of a scalar type.
pub open spec fn scalar_keyword(data_type: PropertyType) -> Seq<char>
    recommends
        !(data_type is List),
{
    match data_type {
        PropertyType::Char => "char"@,
        PropertyType::UChar => "uchar"@,
        PropertyType::Short => "short"@,
        PropertyType::UShort => "ushort"@,
        PropertyType::Int => "int"@,
        PropertyType::UInt => "uint"@,
        PropertyType::Float => "float"@,
        _ => "double"@,
    }
}

/// Why a type cannot count the items of a list, if it cannot.
pub open spec fn invalid_index(index_type: PropertyType) -> Option<IndexKind> {
    match index_type {
        PropertyType::Float => Some(IndexKind::Float),
        PropertyType::Double => Some(IndexKind::Double),
        PropertyType::List(_, _) => Some(IndexKind::List),
        _ => None,
    }
}

/// The number of bytes of a binary field of a scalar type.
pub open spec fn field_width(data_type: PropertyType) -> nat
    recommends
        !(data_type is List),
{
    match data_type {
        PropertyType::Char | PropertyType::UChar => 1,
        PropertyType::Short | PropertyType::UShort => 2,
        PropertyType::Int | PropertyType::UInt | PropertyType::Float => 4,
        _ => 8,
    }
}

/// The type tokens of a property line: a keyword for a scalar; for a list
/// the word `list`, the index type and the item type. A list whose index
/// type is not an integer stops the line after `list `.
pub open spec fn type_tokens(data_type: PropertyType) -> Emitted
    decreases data_type,
{
    match data_type {
        PropertyType::List(index_type, item_type) => match invalid_index(*index_type) {
            Some(found) => Emitted {
                bytes: text("list "@),
                fault: Some(Fault::InvalidListIndexType { found, stage: Stage::Header }),
            },
            None => Emitted::plain(
                text("list "@) + text(scalar_keyword(*index_type)) + text(" "@),
            ).followed_by(type_tokens(*item_type)),
        },
        _ => Emitted::plain(text(scalar_keyword(data_type))),
    }
}

/// The text of the first line of every file.
pub open spec fn magic_body() -> Seq<u8> {
    text("ply"@)
}

/// The first line of every file.
pub open spec fn magic_line(newline: Seq<u8>) -> Seq<u8> {
    magic_body() + newline
}

/// The text of the line that names encoding and version.
pub open spec fn format_body(encoding: Encoding, version: Version) -> Seq<u8> {
    text("format "@) + text(encoding_keyword(encoding)) + text(" "@) + decimal(
        version.major as nat,
    ) + text("."@) + decimal(version.minor as nat)
}

/// The line that names encoding and version.
pub open spec fn format_line(encoding: Encoding, version: Version, newline: Seq<u8>) -> Seq<u8> {
    format_body(encoding, version) + newline
}

/// The text of a comment line.
pub open spec fn comment_body(comment: Seq<char>) -> Seq<u8> {
    text("comment "@) + text(comment)
}

/// A comment line.
pub open spec fn comment_line(comment: Seq<char>, newline: Seq<u8>) -> Seq<u8> {
    comment_body(comment) + newline
}

/// The text of an object information line.
pub open spec fn obj_info_body(obj_info: Seq<char>) -> Seq<u8> {
    text("obj_info "@) + text(obj_info)
}

/// An object information line.
pub open spec fn obj_info_line(obj_info: Seq<char>, newline: Seq<u8>) -> Seq<u8> {
    obj_info_body(obj_info) + newline
}

/// The text of the line that opens the definition of an element.
pub open spec fn element_body(element: ElementDefView) -> Seq<u8> {
    text("element "@) + text(element.name) + text(" "@) + decimal(element.count)
}

/// The line that opens the definition of an element.
pub open spec fn element_line(element: ElementDefView, newline: Seq<u8>) -> Seq<u8> {
    element_body(element) + newline
}

/// The text of the line that defines a property, where its type tokens
/// are written in full.
pub open spec fn property_body(property: PropertyDefView) -> Seq<u8> {
    text("property "@) + type_tokens(property.data_type).bytes + text(" "@) + text(property.name)
}

/// The line that defines a property.
pub open spec fn property_line(property: PropertyDefView, newline: Seq<u8>) -> Emitted {
    Emitted::plain(text("property "@)).followed_by(type_tokens(property.data_type)).followed_by(
        Emitted::plain(text(" "@) + text(property.name) + newline),
    )
}

/// The text of the last line of the header.
pub open spec fn end_header_body() -> Seq<u8> {
    text("end_header"@)
}

/// The last line of the header.
pub open spec fn end_header_line(newline: Seq<u8>) -> Seq<u8> {
    end_header_body() + newline
}

/// The first `n` comment lines.
pub open spec fn comment_lines(comments: Seq<Seq<char>>, n: nat, newline: Seq<u8>) -> Seq<u8>
    decreases n,
{
    if n == 0 {
        Seq::empty()
    } else {
        comment_lines(comments, (n - 1) as nat, newline) + comment_line(comments[n - 1], newline)
    }
}

/// The first `n` object information lines.
pub open spec fn obj_info_lines(obj_infos: Seq<Seq<char>>, n: nat, newline: Seq<u8>) -> Seq<u8>
    decreases n,
{
    if n == 0 {
        Seq::empty()
    } else {
        obj_info_lines(obj_infos, (n - 1) as nat, newline) + obj_info_line(
            obj_infos[n - 1],
            newline,
        )
    }
}

/// The lines of the properties, each as a write of its own.
pub open spec fn property_lines(
    properties: Seq<(Seq<char>, PropertyDefView)>,
    newline: Seq<u8>,
) -> Seq<Emitted> {
    Seq::new(properties.len(), |i: int| property_line(properties[i].1, newline))
}

/// The element line and the lines of all its properties, in order.
pub open spec fn element_block(element: ElementDefView, newline: Seq<u8>) -> Emitted {
    Emitted::plain(element_line(element, newline)).followed_by(
        Emitted::all(property_lines(element.properties, newline)),
    )
}

/// The blocks of the elements, each as a write of its own.
pub open spec fn element_blocks(
    elements: Seq<(Seq<char>, ElementDefView)>,
    newline: Seq<u8>,
) -> Seq<Emitted> {
    Seq::new(elements.len(), |i: int| element_block(elements[i].1, newline))
}

/// The lines before the element definitions.
pub open spec fn preamble(header: HeaderView, newline: Seq<u8>) -> Seq<u8> {
    magic_line(newline) + format_line(header.encoding, header.version, newline) + comment_lines(
        header.comments,
        header.comments.len(),
        newline,
    ) + obj_info_lines(header.obj_infos, header.obj_infos.len(), newline)
}

/// The whole header.
pub open spec fn header_bytes(header: HeaderView, newline: Seq<u8>) -> Emitted {
    Emitted::plain(preamble(header, newline)).followed_by(
        Emitted::all(element_blocks(header.elements, newline)),
    ).followed_by(Emitted::plain(end_header_line(newline)))
}

/// A value as text: a scalar in base ten, a list as its length followed
/// by its items, a space before each.
pub open spec fn ascii_value(value: Value) -> Seq<u8>
    decreases value, 0nat,
{
    match value {
        Value::Char(v) => signed_decimal(v as int),
        Value::UChar(v) => decimal(v as nat),
        Value::Short(v) => signed_decimal(v as int),
        Value::UShort(v) => decimal(v as nat),
        Value::Int(v) => signed_decimal(v as int),
        Value::UInt(v) => decimal(v as nat),
        Value::Float(_, digits) => text(digits),
        Value::Double(_, digits) => text(digits),
        Value::List(items) => decimal(items.len()) + ascii_items(items, items.len()),
    }
}

/// The first `n` items of a list as text, a space before each.
pub open spec fn ascii_items(items: Seq<Value>, n: nat) -> Seq<u8>
    decreases items, n,
{
    if n == 0 || n > items.len() {
        Seq::empty()
    } else {
        ascii_items(items, (n - 1) as nat) + text(" "@) + ascii_value(items[n - 1])
    }
}

/// The first `n` values of an element as text, a space between neighbours.
pub open spec fn ascii_fields(element: ElementView, n: nat) -> Seq<u8>
    decreases n,
{
    if n == 0 {
        Seq::empty()
    } else if n == 1 {
        ascii_value(element[0].1)
    } else {
        ascii_fields(element, (n - 1) as nat) + text(" "@) + ascii_value(element[n - 1].1)
    }
}

/// An element as a line of text: its values in its own order.
pub open spec fn ascii_row(element: ElementView, newline: Seq<u8>) -> Seq<u8> {
    ascii_fields(element, element.len()) + newline
}

/// The count that precedes the items of a binary list: the length, cut to
/// the width of the index type.
pub open spec fn count_field(length: nat, index_type: PropertyType, order: Endian) -> Seq<u8>
    recommends
        invalid_index(index_type) is None,
{
    unsigned_field(length % pow256(field_width(index_type)), field_width(index_type), order)
}

/// A value as a binary field. A scalar takes the width of its own kind. A
/// list needs a declared list type with an integer index type: the count
/// comes at the width of the index type, then each item against the
/// declared item type.
pub open spec fn binary_value(value: Value, data_type: PropertyType, order: Endian) -> Emitted
    decreases value, 0nat,
{
    match value {
        Value::Char(v) => Emitted::plain(signed_field(v as int, 1, order)),
        Value::UChar(v) => Emitted::plain(unsigned_field(v as nat, 1, order)),
        Value::Short(v) => Emitted::plain(signed_field(v as int, 2, order)),
        Value::UShort(v) => Emitted::plain(unsigned_field(v as nat, 2, order)),
        Value::Int(v) => Emitted::plain(signed_field(v as int, 4, order)),
        Value::UInt(v) => Emitted::plain(unsigned_field(v as nat, 4, order)),
        Value::Float(bits, _) => Emitted::plain(unsigned_field(bits as nat, 4, order)),
        Value::Double(bits, _) => Emitted::plain(unsigned_field(bits as nat, 8, order)),
        Value::List(items) => match data_type {
            PropertyType::List(index_type, item_type) => match invalid_index(*index_type) {
                Some(found) => Emitted::fail(
                    Fault::InvalidListIndexType { found, stage: Stage::Payload },
                ),
                None => Emitted::plain(count_field(items.len(), *index_type, order)).followed_by(
                    binary_items(items, *item_type, order, items.len()),
                ),
            },
            _ => Emitted::fail(Fault::ListTypeExpected),
        },
    }
}

/// The first `n` items of a list as binary fields.
pub open spec fn binary_items(
    items: Seq<Value>,
    item_type: PropertyType,
    order: Endian,
    n: nat,
) -> Emitted
    decreases items, n,
{
    if n == 0 || n > items.len() {
        Emitted::plain(Seq::empty())
    } else {
        binary_items(items, item_type, order, (n - 1) as nat).followed_by(
            binary_value(items[n - 1], item_type, order),
        )
    }
}

/// The field of one declared property in a binary row: the value that the
/// element holds under the property's key, against the declared type.
pub open spec fn binary_field(
    property: (Seq<char>, PropertyDefView),
    element: ElementView,
    order: Endian,
) -> Emitted {
    match lookup(element, property.0) {
        Some(value) => binary_value(value, property.1.data_type, order),
        None => Emitted::fail(Fault::MissingProperty(property.0)),
    }
}

/// The fields of the declared properties, each as a write of its own.
pub open spec fn binary_fields(
    properties: Seq<(Seq<char>, PropertyDefView)>,
    element: ElementView,
    order: Endian,
) -> Seq<Emitted> {
    Seq::new(properties.len(), |i: int| binary_field(properties[i], element, order))
}

/// An element as a binary row: one field for each declared property, in
/// the order of the definition.
pub open spec fn binary_row(
    element_def: ElementDefView,
    element: ElementView,
    order: Endian,
) -> Emitted {
    Emitted::all(binary_fields(element_def.properties, element, order))
}

/// A canonical element as a row in the given encoding.
pub open spec fn encoded_row(
    element: ElementView,
    element_def: ElementDefView,
    encoding: Encoding,
    newline: Seq<u8>,
) -> Emitted {
    match encoding {
        Encoding::Ascii => Emitted::plain(ascii_row(element, newline)),
        Encoding::BinaryBigEndian => binary_row(element_def, element, Endian::Big),
        Encoding::BinaryLittleEndian => binary_row(element_def, element, Endian::Little),
    }
}

/// A conversion outcome as a row: a failed conversion stops the write
/// before anything of the row is written.
pub open spec fn converted_row(
    outcome: Result<ElementView, Seq<char>>,
    element_def: ElementDefView,
    encoding: Encoding,
    newline: Seq<u8>,
) -> Emitted {
    match outcome {
        Ok(element) => encoded_row(element, element_def, encoding, newline),
        Err(message) => Emitted::fail(Fault::Conversion(message)),
    }
}

/// The rows of a caller's elements, each as a write of its own.
pub open spec fn rows<P: ToElement<P>>(
    elements: Seq<P>,
    element_def: ElementDefView,
    encoding: Encoding,
    newline: Seq<u8>,
) -> Seq<Emitted> {
    Seq::new(
        elements.len(),
        |i: int|
            converted_row(elements[i].element_for(element_def), element_def, encoding, newline),
    )
}

/// The rows of one declared element: those that the payload holds under
/// the element's key.
pub open spec fn element_rows<P: ToElement<P>>(
    payload: Seq<(Seq<char>, Seq<P>)>,
    element: (Seq<char>, ElementDefView),
    encoding: Encoding,
    newline: Seq<u8>,
) -> Emitted {
    match lookup(payload, element.0) {
        Some(elements) => Emitted::all(rows(elements, element.1, encoding, newline)),
        None => Emitted::fail(Fault::MissingElement(element.0)),
    }
}

/// The rows of the declared elements, in the order of the header, the
/// rows of each element as a write of its own.
pub open spec fn payload_blocks<P: ToElement<P>>(
    payload: Seq<(Seq<char>, Seq<P>)>,
    header: HeaderView,
    newline: Seq<u8>,
) -> Seq<Emitted> {
    Seq::new(
        header.elements.len(),
        |i: int| element_rows(payload, header.elements[i], header.encoding, newline),
    )
}

/// The whole payload.
pub open spec fn payload_bytes<P: ToElement<P>>(
    payload: Seq<(Seq<char>, Seq<P>)>,
    header: HeaderView,
    newline: Seq<u8>,
) -> Emitted {
    Emitted::all(payload_blocks(payload, header, newline))
}

/// A whole file: the header, then the payload.
pub open spec fn document_bytes<P: ToElement<P>>(
    header: HeaderView,
    payload: Seq<(Seq<char>, Seq<P>)>,
    newline: Seq<u8>,
) -> Emitted {
    header_bytes(header, newline).followed_by(payload_bytes(payload, header, newline))
}

/// Once an item of a binary list has stopped the write, later items add
/// nothing.
pub proof fn lemma_binary_items_stopped(
    items: Seq<Value>,
    item_type: PropertyType,
    order: Endian,
    k: nat,
    n: nat,
)
    requires
        k <= n <= items.len(),
        binary_items(items, item_type, order, k).fault is Some,
    ensures
        binary_items(items, item_type, order, n) == binary_items(items, item_type, order, k),
    decreases n,
{
    if k < n {
        lemma_binary_items_stopped(items, item_type, order, k, (n - 1) as nat);
    }
}

} // verus!
