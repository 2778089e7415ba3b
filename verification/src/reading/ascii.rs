//! Reading ascii rows back: the text of a row determines the values that
//! were written, up to the bit patterns that text does not carry.

use crate::convert::ToElement;
use crate::decimal::{
    decimal, digits_value, lemma_decimal_digits, lemma_decimal_value, signed_decimal,
};
use crate::error::Emitted;
use crate::keymap::lookup;
use crate::layout::{
    ascii_fields, ascii_items, ascii_row, ascii_value, element_rows, payload_blocks, payload_bytes,
    rows, text,
};
use crate::ply::{is_token, ElementDefView, ElementView, Encoding, HeaderView, PropertyType, Value};
use crate::reading::scan::{ends_run, lemma_run_len, run_len};
use crate::reading::shape::{has_type, shapes_of, types_of, Shape};
use crate::writer::NewLine;
use vstd::prelude::*;
use vstd::utf8::{is_ascii_chars, is_ascii_chars_encode_utf8};

verus! {

/// What a line of text says of a value: all of it but the bit patterns of
/// floating-point numbers, of which it holds the decimal text.
pub enum Item {
    Char(i8),
    UChar(u8),
    Short(i16),
    UShort(u16),
    Int(i32),
    UInt(u32),
    Float(Seq<u8>),
    Double(Seq<u8>),
    List(Seq<Item>),
}

/// A value as text says it.
pub open spec fn item_of(value: Value) -> Item
    decreases value, 0nat,
{
    match value {
        Value::Char(v) => Item::Char(v),
        Value::UChar(v) => Item::UChar(v),
        Value::Short(v) => Item::Short(v),
        Value::UShort(v) => Item::UShort(v),
        Value::Int(v) => Item::Int(v),
        Value::UInt(v) => Item::UInt(v),
        Value::Float(_, digits) => Item::Float(text(digits)),
        Value::Double(_, digits) => Item::Double(text(digits)),
        Value::List(items) => Item::List(items_of(items, items.len())),
    }
}

/// The first `n` of `items` as text says them.
pub open spec fn items_of(items: Seq<Value>, n: nat) -> Seq<Item>
    decreases items, n,
{
    if n == 0 || n > items.len() {
        Seq::empty()
    } else {
        items_of(items, (n - 1) as nat).push(item_of(items[n - 1]))
    }
}

/// Whether the decimal text of every floating-point number in a value is
/// a token.
pub open spec fn well_formed(value: Value) -> bool
    decreases value,
{
    match value {
        Value::Float(_, digits) => is_token(text(digits)),
        Value::Double(_, digits) => is_token(text(digits)),
        Value::List(items) => forall|i: int|
            0 <= i < items.len() ==> well_formed(#[trigger] items[i]),
        _ => true,
    }
}

/// The bytes that can stand in a token.
pub open spec fn token_byte() -> spec_fn(u8) -> bool {
    |byte: u8| 0x21 <= byte <= 0x7e
}

/// Whether input ends a token that stands before it: it is empty or
/// begins with a byte that no token holds.
pub open spec fn ends_token(input: Seq<u8>) -> bool {
    ends_run(input, token_byte())
}

/// Reads the token at the front of `input`.
pub open spec fn read_token(input: Seq<u8>) -> Option<(Seq<u8>, Seq<u8>)> {
    let n = run_len(input, token_byte());
    if n == 0 {
        None
    } else {
        Some((input.subrange(0, n as int), input.skip(n as int)))
    }
}

/// Whether every byte is an ASCII digit.
pub open spec fn all_digits(token: Seq<u8>) -> bool {
    token.len() > 0 && forall|i: int| 0 <= i < token.len() ==> 48 <= #[trigger] token[i] <= 57
}

/// The number that a token of digits spells.
pub open spec fn parse_unsigned(token: Seq<u8>) -> Option<nat> {
    if all_digits(token) {
        Some(digits_value(token))
    } else {
        None
    }
}

/// The number that a token of digits, with or without a minus sign
/// before them, spells.
pub open spec fn parse_signed(token: Seq<u8>) -> Option<int> {
    if token.len() > 0 && token[0] == 45 {
        match parse_unsigned(token.skip(1)) {
            Some(n) => Some(-(n as int)),
            None => None,
        }
    } else {
        match parse_unsigned(token) {
            Some(n) => Some(n as int),
            None => None,
        }
    }
}

/// The scalar of a declared type that a token spells.
pub open spec fn scalar_item(token: Seq<u8>, data_type: PropertyType) -> Option<Item>
    recommends
        !(data_type is List),
{
    match data_type {
        PropertyType::Char => match parse_signed(token) {
            Some(v) if i8::MIN <= v <= i8::MAX => Some(Item::Char(v as i8)),
            _ => None,
        },
        PropertyType::UChar => match parse_unsigned(token) {
            Some(v) if v <= u8::MAX => Some(Item::UChar(v as u8)),
            _ => None,
        },
        PropertyType::Short => match parse_signed(token) {
            Some(v) if i16::MIN <= v <= i16::MAX => Some(Item::Short(v as i16)),
            _ => None,
        },
        PropertyType::UShort => match parse_unsigned(token) {
            Some(v) if v <= u16::MAX => Some(Item::UShort(v as u16)),
            _ => None,
        },
        PropertyType::Int => match parse_signed(token) {
            Some(v) if i32::MIN <= v <= i32::MAX => Some(Item::Int(v as i32)),
            _ => None,
        },
        PropertyType::UInt => match parse_unsigned(token) {
            Some(v) if v <= u32::MAX => Some(Item::UInt(v as u32)),
            _ => None,
        },
        PropertyType::Float => Some(Item::Float(token)),
        _ => Some(Item::Double(token)),
    }
}

/// Reads one value of the declared type from the front of `input`: a
/// scalar is one token; a list is the token of its length and then its
/// items, a space before each.
pub open spec fn read_value(input: Seq<u8>, data_type: PropertyType) -> Option<(Item, Seq<u8>)>
    decreases data_type, 0nat,
{
    match read_token(input) {
        None => None,
        Some((token, rest)) => match data_type {
            PropertyType::List(_, item_type) => match parse_unsigned(token) {
                None => None,
                Some(count) => match read_items(rest, *item_type, count) {
                    Some((items, left)) => Some((Item::List(items), left)),
                    None => None,
                },
            },
            _ => match scalar_item(token, data_type) {
                Some(item) => Some((item, rest)),
                None => None,
            },
        },
    }
}

/// Reads `n` values of the declared type, a space before each.
pub open spec fn read_items(input: Seq<u8>, item_type: PropertyType, n: nat) -> Option<
    (Seq<Item>, Seq<u8>),
>
    decreases item_type, n,
{
    if n == 0 {
        Some((Seq::empty(), input))
    } else {
        match read_items(input, item_type, (n - 1) as nat) {
            Some((items, rest)) => if rest.len() > 0 && rest[0] == 32 {
                match read_value(rest.skip(1), item_type) {
                    Some((item, left)) => Some((items.push(item), left)),
                    None => None,
                }
            } else {
                None
            },
            None => None,
        }
    }
}

/// A space is the one byte 32.
pub proof fn lemma_space()
    ensures
        text(" "@) == seq![32u8],
{
    reveal_strlit(" ");
    assert(is_ascii_chars(" "@));
    is_ascii_chars_encode_utf8(" "@);
    assert(text(" "@) =~= seq![32u8]);
}

/// A token that is followed by the end of a token is read as it stands.
pub proof fn lemma_read_token(token: Seq<u8>, rest: Seq<u8>)
    requires
        is_token(token),
        ends_token(rest),
    ensures
        read_token(token + rest) == Some((token, rest)),
{
    lemma_run_len(token, rest, token_byte());
}

/// The decimal text of a number is a token of digits that spells it.
pub proof fn lemma_parse_unsigned(n: nat)
    ensures
        is_token(decimal(n)),
        parse_unsigned(decimal(n)) == Some(n),
{
    lemma_decimal_digits(n);
    lemma_decimal_value(n);
}

/// The decimal text of a signed number is a token that spells it.
pub proof fn lemma_parse_signed(v: int)
    ensures
        is_token(signed_decimal(v)),
        parse_signed(signed_decimal(v)) == Some(v),
{
    if v < 0 {
        let n = (-v) as nat;
        lemma_parse_unsigned(n);
        assert(signed_decimal(v).skip(1) =~= decimal(n));
        assert(signed_decimal(v)[0] == 45);
    } else {
        lemma_parse_unsigned(v as nat);
        lemma_decimal_digits(v as nat);
        assert(decimal(v as nat)[0] != 45);
    }
}

/// From the text of a well-formed value of its declared type, followed by
/// the end of a token, the same value is read back, and what follows is
/// left.
pub proof fn law_value_round_trip(value: Value, data_type: PropertyType, rest: Seq<u8>)
    requires
        has_type(value, data_type),
        well_formed(value),
        ends_token(rest),
    ensures
        read_value(ascii_value(value) + rest, data_type) == Some((item_of(value), rest)),
    decreases value, 0nat,
{
    match value {
        Value::List(items) => {
            let item_type = *data_type->List_1;
            let count = decimal(items.len());
            let body = ascii_items(items, items.len());
            lemma_parse_unsigned(items.len());
            lemma_items_round_trip(items, item_type, items.len(), rest);
            lemma_space();
            assert(ends_token(body + rest)) by {
                if items.len() > 0 {
                    assert((body + rest)[0] == 32);
                } else {
                    assert(body + rest =~= rest);
                }
            }
            lemma_read_token(count, body + rest);
            assert(ascii_value(value) + rest =~= count + (body + rest));
        },
        Value::Char(v) => {
            lemma_parse_signed(v as int);
            lemma_read_token(ascii_value(value), rest);
        },
        Value::UChar(v) => {
            lemma_parse_unsigned(v as nat);
            lemma_read_token(ascii_value(value), rest);
        },
        Value::Short(v) => {
            lemma_parse_signed(v as int);
            lemma_read_token(ascii_value(value), rest);
        },
        Value::UShort(v) => {
            lemma_parse_unsigned(v as nat);
            lemma_read_token(ascii_value(value), rest);
        },
        Value::Int(v) => {
            lemma_parse_signed(v as int);
            lemma_read_token(ascii_value(value), rest);
        },
        Value::UInt(v) => {
            lemma_parse_unsigned(v as nat);
            lemma_read_token(ascii_value(value), rest);
        },
        Value::Float(_, _) => {
            lemma_read_token(ascii_value(value), rest);
        },
        Value::Double(_, _) => {
            lemma_read_token(ascii_value(value), rest);
        },
    }
}

/// From the text of the first `n` items of a list, each well formed and
/// of the item type, the same items are read back.
pub proof fn lemma_items_round_trip(
    items: Seq<Value>,
    item_type: PropertyType,
    n: nat,
    rest: Seq<u8>,
)
    requires
        n <= items.len(),
        forall|i: int| 0 <= i < items.len() ==> has_type(#[trigger] items[i], item_type),
        forall|i: int| 0 <= i < items.len() ==> well_formed(#[trigger] items[i]),
        ends_token(rest),
    ensures
        read_items(ascii_items(items, n) + rest, item_type, n) == Some((items_of(items, n), rest)),
        n > 0 ==> ascii_items(items, n).len() > 0 && ascii_items(items, n)[0] == 32,
    decreases items, n,
{
    lemma_space();
    if n == 0 {
        assert(ascii_items(items, n) + rest =~= rest);
    } else {
        let before = ascii_items(items, (n - 1) as nat);
        let last = ascii_value(items[n - 1]);
        let tail = seq![32u8] + last + rest;
        assert(tail[0] == 32);
        lemma_items_round_trip(items, item_type, (n - 1) as nat, tail);
        law_value_round_trip(items[n - 1], item_type, rest);
        assert(ascii_items(items, n) + rest =~= before + tail);
        assert(tail.skip(1) =~= last + rest);
        assert(ascii_items(items, n) =~= before + seq![32u8] + last);
    }
}

/// Whether an element holds, in the order of a definition, one well-formed
/// value of the declared type for each property.
pub open spec fn aligned(element: ElementView, element_def: ElementDefView) -> bool {
    &&& element.len() == element_def.properties.len()
    &&& forall|i: int|
        0 <= i < element.len() ==> has_type(
            (#[trigger] element[i]).1,
            element_def.properties[i].1.data_type,
        ) && well_formed(element[i].1)
}

/// What an ascii row says of an element: its values in order.
pub open spec fn row_items(element: ElementView) -> Seq<Item> {
    Seq::new(element.len(), |i: int| item_of(element[i].1))
}

/// Reads the values of the first `n` declared properties, a space between
/// neighbours.
pub open spec fn read_fields(input: Seq<u8>, types: Seq<PropertyType>, n: nat) -> Option<
    (Seq<Item>, Seq<u8>),
>
    decreases n,
{
    if n == 0 {
        Some((Seq::empty(), input))
    } else {
        match read_fields(input, types, (n - 1) as nat) {
            None => None,
            Some((fields, rest)) => {
                let from = if n == 1 {
                    Some(rest)
                } else if rest.len() > 0 && rest[0] == 32 {
                    Some(rest.skip(1))
                } else {
                    None
                };
                match from {
                    None => None,
                    Some(start) => match read_value(start, types[n - 1]) {
                        Some((field, left)) => Some((fields.push(field), left)),
                        None => None,
                    },
                }
            },
        }
    }
}

/// Reads one line of text as a row: values of the given types, then the
/// line terminator.
pub open spec fn read_row(input: Seq<u8>, types: Seq<PropertyType>, newline: Seq<u8>) -> Option<
    (Seq<Item>, Seq<u8>),
> {
    match read_fields(input, types, types.len()) {
        Some((fields, rest)) => if rest.len() >= newline.len() && rest.subrange(
            0,
            newline.len() as int,
        ) == newline {
            Some((fields, rest.skip(newline.len() as int)))
        } else {
            None
        },
        None => None,
    }
}

/// From the text of the first `n` values of an aligned element the same
/// values are read back.
pub proof fn lemma_fields_round_trip(
    element: ElementView,
    element_def: ElementDefView,
    n: nat,
    rest: Seq<u8>,
)
    requires
        aligned(element, element_def),
        n <= element.len(),
        ends_token(rest),
    ensures
        read_fields(ascii_fields(element, n) + rest, types_of(element_def.properties), n) == Some(
            (row_items(element).subrange(0, n as int), rest),
        ),
    decreases n,
{
    lemma_space();
    let items = row_items(element);
    if n == 0 {
        assert(ascii_fields(element, n) + rest =~= rest);
        assert(items.subrange(0, 0) =~= Seq::<Item>::empty());
    } else {
        let last = ascii_value(element[n - 1].1);
        law_value_round_trip(element[n - 1].1, element_def.properties[n - 1].1.data_type, rest);
        assert(items.subrange(0, n as int) =~= items.subrange(0, n - 1).push(
            item_of(element[n - 1].1),
        ));
        if n == 1 {
            let input = ascii_fields(element, n) + rest;
            assert(input =~= last + rest);
            assert(items.subrange(0, 0) =~= Seq::<Item>::empty());
            assert(read_fields(input, types_of(element_def.properties), 0) == Some(
                (Seq::<Item>::empty(), input),
            ));
        } else {
            let before = ascii_fields(element, (n - 1) as nat);
            let tail = seq![32u8] + last + rest;
            assert(tail[0] == 32);
            lemma_fields_round_trip(element, element_def, (n - 1) as nat, tail);
            assert(ascii_fields(element, n) + rest =~= before + tail);
            assert(tail.skip(1) =~= last + rest);
        }
    }
}

/// For every newline policy: from the ascii row of an aligned element,
/// whatever follows it, the same values are read back.
pub proof fn law_row_round_trip(
    element: ElementView,
    element_def: ElementDefView,
    policy: NewLine,
    rest: Seq<u8>,
)
    requires
        aligned(element, element_def),
    ensures
        read_row(
            ascii_row(element, policy.bytes()) + rest,
            types_of(element_def.properties),
            policy.bytes(),
        ) == Some((row_items(element), rest)),
{
    let newline = policy.bytes();
    let fields = ascii_fields(element, element.len());
    lemma_fields_round_trip(element, element_def, element.len(), newline + rest);
    let items = row_items(element);
    assert(items.subrange(0, items.len() as int) =~= items);
    assert(ascii_row(element, newline) + rest =~= fields + (newline + rest));
    assert((newline + rest).subrange(0, newline.len() as int) =~= newline);
    assert((newline + rest).skip(newline.len() as int) =~= rest);
}

/// Reads `n` lines as rows of values of the given types.
pub open spec fn read_rows(
    input: Seq<u8>,
    types: Seq<PropertyType>,
    newline: Seq<u8>,
    n: nat,
) -> Option<(Seq<Seq<Item>>, Seq<u8>)>
    decreases n,
{
    if n == 0 {
        Some((Seq::empty(), input))
    } else {
        match read_rows(input, types, newline, (n - 1) as nat) {
            Some((table, rest)) => match read_row(rest, types, newline) {
                Some((row, left)) => Some((table.push(row), left)),
                None => None,
            },
            None => None,
        }
    }
}

/// Reads the rows of the first `n` elements, for each as many lines as
/// its shape counts.
pub open spec fn read_payload(
    input: Seq<u8>,
    shapes: Seq<Shape>,
    newline: Seq<u8>,
    n: nat,
) -> Option<(Seq<Seq<Seq<Item>>>, Seq<u8>)>
    decreases n,
{
    if n == 0 {
        Some((Seq::empty(), input))
    } else {
        match read_payload(input, shapes, newline, (n - 1) as nat) {
            Some((tables, rest)) => match read_rows(
                rest,
                shapes[n - 1].types,
                newline,
                shapes[n - 1].count,
            ) {
                Some((table, left)) => Some((tables.push(table), left)),
                None => None,
            },
            None => None,
        }
    }
}

/// Whether every element of a list converts, for the given definition,
/// into an element aligned with it.
pub open spec fn all_aligned<P: ToElement<P>>(
    elements: Seq<P>,
    element_def: ElementDefView,
) -> bool {
    forall|i: int|
        0 <= i < elements.len() ==> ((#[trigger] elements[i]).element_for(element_def) matches Ok(
            element,
        ) && aligned(element, element_def))
}

/// What the ascii rows of a list of elements say of them.
pub open spec fn table_items<P: ToElement<P>>(
    elements: Seq<P>,
    element_def: ElementDefView,
) -> Seq<Seq<Item>> {
    Seq::new(elements.len(), |i: int| row_items(elements[i].element_for(element_def)->Ok_0))
}

/// From the first `n` ascii rows of elements that are all aligned the
/// same values are read back.
pub proof fn lemma_rows_round_trip<P: ToElement<P>>(
    elements: Seq<P>,
    element_def: ElementDefView,
    policy: NewLine,
    n: nat,
    rest: Seq<u8>,
)
    requires
        all_aligned(elements, element_def),
        n <= elements.len(),
    ensures
        Emitted::first(rows(elements, element_def, Encoding::Ascii, policy.bytes()), n).fault
            is None,
        read_rows(
            Emitted::first(rows(elements, element_def, Encoding::Ascii, policy.bytes()), n).bytes
                + rest,
            types_of(element_def.properties),
            policy.bytes(),
            n,
        ) == Some((table_items(elements, element_def).subrange(0, n as int), rest)),
    decreases n,
{
    let parts = rows(elements, element_def, Encoding::Ascii, policy.bytes());
    let content = table_items(elements, element_def);
    if n == 0 {
        assert(Emitted::first(parts, n).bytes + rest =~= rest);
        assert(content.subrange(0, 0) =~= Seq::<Seq<Item>>::empty());
    } else {
        let element = elements[n - 1].element_for(element_def)->Ok_0;
        let last = parts[n - 1];
        lemma_rows_round_trip(elements, element_def, policy, (n - 1) as nat, last.bytes + rest);
        law_row_round_trip(element, element_def, policy, rest);
        assert(Emitted::first(parts, n).bytes + rest =~= Emitted::first(
            parts,
            (n - 1) as nat,
        ).bytes + (last.bytes + rest));
        assert(content.subrange(0, n as int) =~= content.subrange(0, n - 1).push(
            row_items(element),
        ));
    }
}

/// Whether a payload holds, for each element that a header declares, as
/// many elements as declared, each converting into one aligned with the
/// definition.
pub open spec fn payload_aligned<P: ToElement<P>>(
    payload: Seq<(Seq<char>, Seq<P>)>,
    header: HeaderView,
) -> bool {
    forall|i: int|
        0 <= i < header.elements.len() ==> (lookup(
            payload,
            (#[trigger] header.elements[i]).0,
        ) matches Some(elements) && elements.len() == header.elements[i].1.count && all_aligned(
            elements,
            header.elements[i].1,
        ))
}

/// What an ascii payload says of the elements: for each declared element,
/// in the order of the header, the values of its rows.
pub open spec fn payload_items<P: ToElement<P>>(
    payload: Seq<(Seq<char>, Seq<P>)>,
    header: HeaderView,
) -> Seq<Seq<Seq<Item>>> {
    Seq::new(
        header.elements.len(),
        |i: int| table_items(lookup(payload, header.elements[i].0).unwrap(), header.elements[i].1),
    )
}

/// From the rows of the first `n` declared elements of an aligned ascii
/// payload the same values are read back.
pub proof fn lemma_payload_round_trip<P: ToElement<P>>(
    payload: Seq<(Seq<char>, Seq<P>)>,
    header: HeaderView,
    policy: NewLine,
    n: nat,
    rest: Seq<u8>,
)
    requires
        header.encoding is Ascii,
        payload_aligned(payload, header),
        n <= header.elements.len(),
    ensures
        Emitted::first(payload_blocks(payload, header, policy.bytes()), n).fault is None,
        read_payload(
            Emitted::first(payload_blocks(payload, header, policy.bytes()), n).bytes + rest,
            shapes_of(header.elements),
            policy.bytes(),
            n,
        ) == Some((payload_items(payload, header).subrange(0, n as int), rest)),
    decreases n,
{
    let newline = policy.bytes();
    let parts = payload_blocks(payload, header, newline);
    let content = payload_items(payload, header);
    if n == 0 {
        assert(Emitted::first(parts, n).bytes + rest =~= rest);
        assert(content.subrange(0, 0) =~= Seq::<Seq<Seq<Item>>>::empty());
    } else {
        let declared = header.elements[n - 1];
        let elements = lookup(payload, declared.0).unwrap();
        let last = parts[n - 1];
        assert(last == element_rows(payload, declared, header.encoding, newline));
        lemma_payload_round_trip(payload, header, policy, (n - 1) as nat, last.bytes + rest);
        lemma_rows_round_trip(elements, declared.1, policy, elements.len(), rest);
        let table = table_items(elements, declared.1);
        assert(table.subrange(0, elements.len() as int) =~= table);
        assert(Emitted::first(parts, n).bytes + rest =~= Emitted::first(
            parts,
            (n - 1) as nat,
        ).bytes + (last.bytes + rest));
        assert(content.subrange(0, n as int) =~= content.subrange(0, n - 1).push(table));
    }
}

/// In the ascii encoding, for every newline policy: the payload of a
/// document whose elements are aligned with their definitions, as many of
/// each as declared, is written in full, and a reader that knows the
/// header reads the same values back from it.
pub proof fn law_payload_round_trip<P: ToElement<P>>(
    payload: Seq<(Seq<char>, Seq<P>)>,
    header: HeaderView,
    policy: NewLine,
    rest: Seq<u8>,
)
    requires
        header.encoding is Ascii,
        payload_aligned(payload, header),
    ensures
        payload_bytes(payload, header, policy.bytes()).fault is None,
        read_payload(
            payload_bytes(payload, header, policy.bytes()).bytes + rest,
            shapes_of(header.elements),
            policy.bytes(),
            header.elements.len(),
        ) == Some((payload_items(payload, header), rest)),
{
    lemma_payload_round_trip(payload, header, policy, header.elements.len(), rest);
    let content = payload_items(payload, header);
    assert(content.subrange(0, content.len() as int) =~= content);
}

} // verus!
