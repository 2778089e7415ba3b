//! Reading binary fields back: the bytes of a field determine the value
//! that was written, up to the decimal text that a binary field does not
//! carry.

use crate::convert::ToElement;
use crate::error::Emitted;
use crate::keymap::lookup;
use crate::layout::{
    binary_fields, binary_items, binary_row, binary_value, count_field, element_rows, field_width,
    invalid_index, payload_blocks, payload_bytes, rows,
};
use crate::ply::{ElementDefView, ElementView, Encoding, HeaderView, PropertyType, Value};
use crate::reading::shape::{has_type, max_count, shapes_of, types_of, Shape};
use crate::wire::{
    be_bytes, be_value, lemma_be_bytes, lemma_le_bytes, lemma_pow256, pow256, twos_complement,
    unsigned_field, Endian,
};
use vstd::prelude::*;

verus! {

/// What a binary field says of a value: all of it but the decimal texts.
pub enum Content {
    Char(i8),
    UChar(u8),
    Short(i16),
    UShort(u16),
    Int(i32),
    UInt(u32),
    Float(u32),
    Double(u64),
    List(Seq<Content>),
}

/// A value without its decimal texts.
pub open spec fn content_of(value: Value) -> Content
    decreases value, 0nat,
{
    match value {
        Value::Char(v) => Content::Char(v),
        Value::UChar(v) => Content::UChar(v),
        Value::Short(v) => Content::Short(v),
        Value::UShort(v) => Content::UShort(v),
        Value::Int(v) => Content::Int(v),
        Value::UInt(v) => Content::UInt(v),
        Value::Float(bits, _) => Content::Float(bits),
        Value::Double(bits, _) => Content::Double(bits),
        Value::List(items) => Content::List(contents_of(items, items.len())),
    }
}

/// The first `n` of `items` without their decimal texts.
pub open spec fn contents_of(items: Seq<Value>, n: nat) -> Seq<Content>
    decreases items, n,
{
    if n == 0 || n > items.len() {
        Seq::empty()
    } else {
        contents_of(items, (n - 1) as nat).push(content_of(items[n - 1]))
    }
}

/// The number that the bytes of a field spell in the given order.
pub open spec fn field_value(bytes: Seq<u8>, order: Endian) -> nat {
    match order {
        Endian::Big => be_value(bytes),
        Endian::Little => be_value(bytes.reverse()),
    }
}

/// The signed number whose two's complement form at `width` bytes is
/// `bits`.
pub open spec fn from_twos_complement(bits: nat, width: nat) -> int {
    if 2 * bits >= pow256(width) {
        bits - pow256(width)
    } else {
        bits as int
    }
}

/// The scalar of a declared type that a number stands for.
pub open spec fn scalar_content(bits: nat, data_type: PropertyType) -> Content
    recommends
        !(data_type is List),
{
    match data_type {
        PropertyType::Char => Content::Char(from_twos_complement(bits, 1) as i8),
        PropertyType::UChar => Content::UChar(bits as u8),
        PropertyType::Short => Content::Short(from_twos_complement(bits, 2) as i16),
        PropertyType::UShort => Content::UShort(bits as u16),
        PropertyType::Int => Content::Int(from_twos_complement(bits, 4) as i32),
        PropertyType::UInt => Content::UInt(bits as u32),
        PropertyType::Float => Content::Float(bits as u32),
        _ => Content::Double(bits as u64),
    }
}

/// Reads one field of the declared type from the front of `input`: the
/// value read and what is left of the input, or nothing where the input
/// is too short or the type cannot be read.
pub open spec fn read_value(input: Seq<u8>, data_type: PropertyType, order: Endian) -> Option<
    (Content, Seq<u8>),
>
    decreases data_type, 0nat,
{
    match data_type {
        PropertyType::List(index_type, item_type) => {
            let width = field_width(*index_type);
            if invalid_index(*index_type) is Some || input.len() < width {
                None
            } else {
                let count = field_value(input.subrange(0, width as int), order);
                if count > max_count(*index_type) {
                    None
                } else {
                    match read_items(input.skip(width as int), *item_type, order, count) {
                        Some((items, rest)) => Some((Content::List(items), rest)),
                        None => None,
                    }
                }
            }
        },
        _ => {
            let width = field_width(data_type);
            if input.len() < width {
                None
            } else {
                Some(
                    (
                        scalar_content(
                            field_value(input.subrange(0, width as int), order),
                            data_type,
                        ),
                        input.skip(width as int),
                    ),
                )
            }
        },
    }
}

/// Reads `n` fields of the declared type, one after the other.
pub open spec fn read_items(
    input: Seq<u8>,
    item_type: PropertyType,
    order: Endian,
    n: nat,
) -> Option<(Seq<Content>, Seq<u8>)>
    decreases item_type, n,
{
    if n == 0 {
        Some((Seq::empty(), input))
    } else {
        match read_items(input, item_type, order, (n - 1) as nat) {
            Some((items, rest)) => match read_value(rest, item_type, order) {
                Some((item, left)) => Some((items.push(item), left)),
                None => None,
            },
            None => None,
        }
    }
}

/// The bytes of an unsigned field spell the number that was written.
pub proof fn lemma_field_value(v: nat, width: nat, order: Endian)
    requires
        v < pow256(width),
    ensures
        unsigned_field(v, width, order).len() == width,
        field_value(unsigned_field(v, width, order), order) == v,
{
    lemma_be_bytes(v, width);
    lemma_le_bytes(v, width);
    vstd::arithmetic::div_mod::lemma_small_mod(v, pow256(width));
    assert(be_bytes(v, width).reverse().reverse() =~= be_bytes(v, width));
}

/// From the front of a field followed by more input, the field is read
/// and the rest is left.
pub proof fn lemma_front(field: Seq<u8>, rest: Seq<u8>)
    ensures
        (field + rest).subrange(0, field.len() as int) == field,
        (field + rest).skip(field.len() as int) == rest,
{
    assert((field + rest).subrange(0, field.len() as int) =~= field);
    assert((field + rest).skip(field.len() as int) =~= rest);
}

/// A value of its declared type is written in full, and from its field,
/// whatever follows it, the same value is read back, and what follows is
/// left.
pub proof fn law_field_round_trip(
    value: Value,
    data_type: PropertyType,
    order: Endian,
    rest: Seq<u8>,
)
    requires
        has_type(value, data_type),
    ensures
        binary_value(value, data_type, order).fault is None,
        read_value(binary_value(value, data_type, order).bytes + rest, data_type, order) == Some(
            (content_of(value), rest),
        ),
    decreases value, 0nat,
{
    lemma_pow256();
    let field = binary_value(value, data_type, order).bytes;
    match value {
        Value::List(items) => {
            let index_type = *data_type->List_0;
            let item_type = *data_type->List_1;
            let width = field_width(index_type);
            let count = count_field(items.len(), index_type, order);
            let body = binary_items(items, item_type, order, items.len());
            vstd::arithmetic::div_mod::lemma_small_mod(items.len(), pow256(width));
            lemma_field_value(items.len(), width, order);
            lemma_items_round_trip(items, item_type, order, items.len(), rest);
            assert(field + rest =~= count + (body.bytes + rest));
            lemma_front(count, body.bytes + rest);
        },
        Value::Char(v) => {
            lemma_field_value(twos_complement(v as int, 1), 1, order);
            lemma_front(field, rest);
        },
        Value::UChar(v) => {
            lemma_field_value(v as nat, 1, order);
            lemma_front(field, rest);
        },
        Value::Short(v) => {
            lemma_field_value(twos_complement(v as int, 2), 2, order);
            lemma_front(field, rest);
        },
        Value::UShort(v) => {
            lemma_field_value(v as nat, 2, order);
            lemma_front(field, rest);
        },
        Value::Int(v) => {
            lemma_field_value(twos_complement(v as int, 4), 4, order);
            lemma_front(field, rest);
        },
        Value::UInt(v) => {
            lemma_field_value(v as nat, 4, order);
            lemma_front(field, rest);
        },
        Value::Float(bits, _) => {
            lemma_field_value(bits as nat, 4, order);
            lemma_front(field, rest);
        },
        Value::Double(bits, _) => {
            lemma_field_value(bits as nat, 8, order);
            lemma_front(field, rest);
        },
    }
}

/// The items of a list, each of the item type, are written in full, and
/// from their fields the same items are read back.
pub proof fn lemma_items_round_trip(
    items: Seq<Value>,
    item_type: PropertyType,
    order: Endian,
    n: nat,
    rest: Seq<u8>,
)
    requires
        n <= items.len(),
        forall|i: int| 0 <= i < items.len() ==> has_type(#[trigger] items[i], item_type),
    ensures
        binary_items(items, item_type, order, n).fault is None,
        read_items(binary_items(items, item_type, order, n).bytes + rest, item_type, order, n)
            == Some((contents_of(items, n), rest)),
    decreases items, n,
{
    if n == 0 {
        assert(binary_items(items, item_type, order, n).bytes + rest =~= rest);
    } else {
        let before = binary_items(items, item_type, order, (n - 1) as nat);
        let last = binary_value(items[n - 1], item_type, order);
        lemma_items_round_trip(items, item_type, order, (n - 1) as nat, last.bytes + rest);
        law_field_round_trip(items[n - 1], item_type, order, rest);
        assert(binary_items(items, item_type, order, n).bytes + rest =~= before.bytes + (last.bytes
            + rest));
    }
}

/// Whether an element holds, for each property of a definition, a value of
/// the declared type.
pub open spec fn fits(element: ElementView, element_def: ElementDefView) -> bool {
    forall|i: int|
        0 <= i < element_def.properties.len() ==> (lookup(
            element,
            (#[trigger] element_def.properties[i]).0,
        ) matches Some(value) && has_type(value, element_def.properties[i].1.data_type))
}

/// What a binary row says of an element: for each declared property, in
/// order, the content of the element's value.
pub open spec fn row_content(element: ElementView, element_def: ElementDefView) -> Seq<Content> {
    Seq::new(
        element_def.properties.len(),
        |i: int| content_of(lookup(element, element_def.properties[i].0).unwrap()),
    )
}

/// Reads the fields of the first `n` declared properties, one after the
/// other.
pub open spec fn read_fields(
    input: Seq<u8>,
    types: Seq<PropertyType>,
    order: Endian,
    n: nat,
) -> Option<(Seq<Content>, Seq<u8>)>
    decreases n,
{
    if n == 0 {
        Some((Seq::empty(), input))
    } else {
        match read_fields(input, types, order, (n - 1) as nat) {
            Some((fields, rest)) => match read_value(rest, types[n - 1], order) {
                Some((field, left)) => Some((fields.push(field), left)),
                None => None,
            },
            None => None,
        }
    }
}

/// Reads one row of values of the given types.
pub open spec fn read_row(input: Seq<u8>, types: Seq<PropertyType>, order: Endian) -> Option<
    (Seq<Content>, Seq<u8>),
> {
    read_fields(input, types, order, types.len())
}

/// Reads `n` rows of values of the given types, one after the other.
pub open spec fn read_rows(
    input: Seq<u8>,
    types: Seq<PropertyType>,
    order: Endian,
    n: nat,
) -> Option<(Seq<Seq<Content>>, Seq<u8>)>
    decreases n,
{
    if n == 0 {
        Some((Seq::empty(), input))
    } else {
        match read_rows(input, types, order, (n - 1) as nat) {
            Some((table, rest)) => match read_row(rest, types, order) {
                Some((row, left)) => Some((table.push(row), left)),
                None => None,
            },
            None => None,
        }
    }
}

/// Reads the rows of the first `n` elements, for each as many rows as its
/// shape counts.
pub open spec fn read_payload(
    input: Seq<u8>,
    shapes: Seq<Shape>,
    order: Endian,
    n: nat,
) -> Option<(Seq<Seq<Seq<Content>>>, Seq<u8>)>
    decreases n,
{
    if n == 0 {
        Some((Seq::empty(), input))
    } else {
        match read_payload(input, shapes, order, (n - 1) as nat) {
            Some((tables, rest)) => match read_rows(
                rest,
                shapes[n - 1].types,
                order,
                shapes[n - 1].count,
            ) {
                Some((table, left)) => Some((tables.push(table), left)),
                None => None,
            },
            None => None,
        }
    }
}

/// The byte order of a binary encoding.
pub open spec fn byte_order(encoding: Encoding) -> Endian
    recommends
        !(encoding is Ascii),
{
    if encoding is BinaryBigEndian {
        Endian::Big
    } else {
        Endian::Little
    }
}

/// The fields of the first `n` declared properties of a fitting element
/// are written in full, and the same values are read back from them.
pub proof fn lemma_fields_round_trip(
    element: ElementView,
    element_def: ElementDefView,
    order: Endian,
    n: nat,
    rest: Seq<u8>,
)
    requires
        fits(element, element_def),
        n <= element_def.properties.len(),
    ensures
        Emitted::first(binary_fields(element_def.properties, element, order), n).fault is None,
        read_fields(
            Emitted::first(binary_fields(element_def.properties, element, order), n).bytes + rest,
            types_of(element_def.properties),
            order,
            n,
        ) == Some((row_content(element, element_def).subrange(0, n as int), rest)),
    decreases n,
{
    let parts = binary_fields(element_def.properties, element, order);
    let content = row_content(element, element_def);
    if n == 0 {
        assert(Emitted::first(parts, n).bytes + rest =~= rest);
        assert(content.subrange(0, 0) =~= Seq::<Content>::empty());
    } else {
        let property = element_def.properties[n - 1];
        let value = lookup(element, property.0).unwrap();
        let last = parts[n - 1];
        lemma_fields_round_trip(element, element_def, order, (n - 1) as nat, last.bytes + rest);
        law_field_round_trip(value, property.1.data_type, order, rest);
        assert(Emitted::first(parts, n).bytes + rest =~= Emitted::first(
            parts,
            (n - 1) as nat,
        ).bytes + (last.bytes + rest));
        assert(content.subrange(0, n as int) =~= content.subrange(0, n - 1).push(
            content_of(value),
        ));
    }
}

/// A binary row of an element that fits its definition is written in
/// full, and from it, whatever follows, the same values are read back.
pub proof fn law_row_round_trip(
    element: ElementView,
    element_def: ElementDefView,
    order: Endian,
    rest: Seq<u8>,
)
    requires
        fits(element, element_def),
    ensures
        binary_row(element_def, element, order).fault is None,
        read_row(
            binary_row(element_def, element, order).bytes + rest,
            types_of(element_def.properties),
            order,
        ) == Some((row_content(element, element_def), rest)),
{
    lemma_fields_round_trip(element, element_def, order, element_def.properties.len(), rest);
    let content = row_content(element, element_def);
    assert(content.subrange(0, content.len() as int) =~= content);
}

/// Whether every element of a list converts, for the given definition,
/// into an element that fits it.
pub open spec fn all_fit<P: ToElement<P>>(elements: Seq<P>, element_def: ElementDefView) -> bool {
    forall|i: int|
        0 <= i < elements.len() ==> ((#[trigger] elements[i]).element_for(element_def) matches Ok(
            element,
        ) && fits(element, element_def))
}

/// What the binary rows of a list of elements say of them.
pub open spec fn table_content<P: ToElement<P>>(
    elements: Seq<P>,
    element_def: ElementDefView,
) -> Seq<Seq<Content>> {
    Seq::new(
        elements.len(),
        |i: int| row_content(elements[i].element_for(element_def)->Ok_0, element_def),
    )
}

/// The first `n` binary rows of elements that all fit are written in
/// full, and the same values are read back from them.
pub proof fn lemma_rows_round_trip<P: ToElement<P>>(
    elements: Seq<P>,
    element_def: ElementDefView,
    encoding: Encoding,
    newline: Seq<u8>,
    n: nat,
    rest: Seq<u8>,
)
    requires
        !(encoding is Ascii),
        all_fit(elements, element_def),
        n <= elements.len(),
    ensures
        Emitted::first(rows(elements, element_def, encoding, newline), n).fault is None,
        read_rows(
            Emitted::first(rows(elements, element_def, encoding, newline), n).bytes + rest,
            types_of(element_def.properties),
            byte_order(encoding),
            n,
        ) == Some((table_content(elements, element_def).subrange(0, n as int), rest)),
    decreases n,
{
    let parts = rows(elements, element_def, encoding, newline);
    let content = table_content(elements, element_def);
    if n == 0 {
        assert(Emitted::first(parts, n).bytes + rest =~= rest);
        assert(content.subrange(0, 0) =~= Seq::<Seq<Content>>::empty());
    } else {
        let element = elements[n - 1].element_for(element_def)->Ok_0;
        let last = parts[n - 1];
        lemma_rows_round_trip(
            elements,
            element_def,
            encoding,
            newline,
            (n - 1) as nat,
            last.bytes + rest,
        );
        law_row_round_trip(element, element_def, byte_order(encoding), rest);
        assert(Emitted::first(parts, n).bytes + rest =~= Emitted::first(
            parts,
            (n - 1) as nat,
        ).bytes + (last.bytes + rest));
        assert(content.subrange(0, n as int) =~= content.subrange(0, n - 1).push(
            row_content(element, element_def),
        ));
    }
}

/// Whether a payload holds, for each element that a header declares, as
/// many elements as declared, each converting into one that fits the
/// definition.
pub open spec fn payload_fits<P: ToElement<P>>(
    payload: Seq<(Seq<char>, Seq<P>)>,
    header: HeaderView,
) -> bool {
    forall|i: int|
        0 <= i < header.elements.len() ==> (lookup(
            payload,
            (#[trigger] header.elements[i]).0,
        ) matches Some(elements) && elements.len() == header.elements[i].1.count && all_fit(
            elements,
            header.elements[i].1,
        ))
}

/// What a binary payload says of the elements: for each declared element,
/// in the order of the header, the content of its rows.
pub open spec fn payload_content<P: ToElement<P>>(
    payload: Seq<(Seq<char>, Seq<P>)>,
    header: HeaderView,
) -> Seq<Seq<Seq<Content>>> {
    Seq::new(
        header.elements.len(),
        |i: int|
            table_content(lookup(payload, header.elements[i].0).unwrap(), header.elements[i].1),
    )
}

/// The rows of the first `n` declared elements of a fitting binary
/// payload are written in full, and the same values are read back.
pub proof fn lemma_payload_round_trip<P: ToElement<P>>(
    payload: Seq<(Seq<char>, Seq<P>)>,
    header: HeaderView,
    newline: Seq<u8>,
    n: nat,
    rest: Seq<u8>,
)
    requires
        !(header.encoding is Ascii),
        payload_fits(payload, header),
        n <= header.elements.len(),
    ensures
        Emitted::first(payload_blocks(payload, header, newline), n).fault is None,
        read_payload(
            Emitted::first(payload_blocks(payload, header, newline), n).bytes + rest,
            shapes_of(header.elements),
            byte_order(header.encoding),
            n,
        ) == Some((payload_content(payload, header).subrange(0, n as int), rest)),
    decreases n,
{
    let parts = payload_blocks(payload, header, newline);
    let content = payload_content(payload, header);
    if n == 0 {
        assert(Emitted::first(parts, n).bytes + rest =~= rest);
        assert(content.subrange(0, 0) =~= Seq::<Seq<Seq<Content>>>::empty());
    } else {
        let declared = header.elements[n - 1];
        let elements = lookup(payload, declared.0).unwrap();
        let last = parts[n - 1];
        assert(last == element_rows(payload, declared, header.encoding, newline));
        lemma_payload_round_trip(payload, header, newline, (n - 1) as nat, last.bytes + rest);
        lemma_rows_round_trip(
            elements,
            declared.1,
            header.encoding,
            newline,
            elements.len(),
            rest,
        );
        let table = table_content(elements, declared.1);
        assert(table.subrange(0, elements.len() as int) =~= table);
        assert(Emitted::first(parts, n).bytes + rest =~= Emitted::first(
            parts,
            (n - 1) as nat,
        ).bytes + (last.bytes + rest));
        assert(content.subrange(0, n as int) =~= content.subrange(0, n - 1).push(table));
    }
}

/// In both binary encodings: the payload of a document whose elements fit
/// their definitions, as many of each as declared, is written in full,
/// and a reader that knows the header reads the same values back from it.
pub proof fn law_payload_round_trip<P: ToElement<P>>(
    payload: Seq<(Seq<char>, Seq<P>)>,
    header: HeaderView,
    newline: Seq<u8>,
    rest: Seq<u8>,
)
    requires
        !(header.encoding is Ascii),
        payload_fits(payload, header),
    ensures
        payload_bytes(payload, header, newline).fault is None,
        read_payload(
            payload_bytes(payload, header, newline).bytes + rest,
            shapes_of(header.elements),
            byte_order(header.encoding),
            header.elements.len(),
        ) == Some((payload_content(payload, header), rest)),
{
    lemma_payload_round_trip(payload, header, newline, header.elements.len(), rest);
    let content = payload_content(payload, header);
    assert(content.subrange(0, content.len() as int) =~= content);
}

} // verus!
