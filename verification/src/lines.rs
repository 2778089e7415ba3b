//! The line structure of the text a writer produces: every line ends with
//! the writer's terminator, and no other line break occurs.

use crate::convert::ToElement;
use crate::decimal::{decimal, lemma_decimal_digits, signed_decimal};
use crate::error::{lemma_first_fault, Emitted};
use crate::keymap::lookup;
use crate::layout::{
    ascii_fields, ascii_items, ascii_row, ascii_value, comment_line, comment_lines, document_bytes,
    element_block, element_blocks, element_line, encoding_keyword, end_header_line, format_line,
    header_bytes, magic_line, obj_info_line, obj_info_lines, payload_blocks, payload_bytes,
    preamble, property_lines, rows, scalar_keyword, text, type_tokens,
};
use crate::ply::{ElementDefView, ElementView, Encoding, HeaderView, PropertyType, Value, Version};
use crate::writer::NewLine;
use vstd::prelude::*;
use vstd::utf8::{is_ascii_chars, is_ascii_chars_encode_utf8};

verus! {

/// Whether no byte is a line feed or a carriage return.
pub open spec fn break_free(bytes: Seq<u8>) -> bool {
    forall|i: int| 0 <= i < bytes.len() ==> #[trigger] bytes[i] != 10 && bytes[i] != 13
}

/// The lines `bodies`, each followed by the terminator.
pub open spec fn terminated(bodies: Seq<Seq<u8>>, newline: Seq<u8>) -> Seq<u8>
    decreases bodies.len(),
{
    if bodies.len() == 0 {
        Seq::empty()
    } else {
        terminated(bodies.drop_last(), newline) + bodies.last() + newline
    }
}

/// Whether `bytes` are lines that each end with the terminator and hold
/// no line break besides.
pub open spec fn lines_only(bytes: Seq<u8>, newline: Seq<u8>) -> bool {
    exists|bodies: Seq<Seq<u8>>|
        bytes == terminated(bodies, newline) && forall|i: int|
            0 <= i < bodies.len() ==> break_free(#[trigger] bodies[i])
}

/// Nothing at all is a text of lines.
pub proof fn lemma_no_lines(newline: Seq<u8>)
    ensures
        lines_only(Seq::empty(), newline),
{
    let bodies = Seq::<Seq<u8>>::empty();
    assert(Seq::<u8>::empty() == terminated(bodies, newline));
}

/// A text without a line break, followed by the terminator, is one line.
pub proof fn lemma_one_line(body: Seq<u8>, newline: Seq<u8>)
    requires
        break_free(body),
    ensures
        lines_only(body + newline, newline),
{
    let bodies = seq![body];
    assert(bodies.drop_last() =~= Seq::<Seq<u8>>::empty());
    assert(terminated(bodies.drop_last(), newline) =~= Seq::<u8>::empty());
    assert(terminated(bodies, newline) =~= body + newline);
}

/// Terminating two runs of lines one after the other terminates their
/// concatenation.
pub proof fn lemma_terminated_concat(a: Seq<Seq<u8>>, b: Seq<Seq<u8>>, newline: Seq<u8>)
    ensures
        terminated(a + b, newline) == terminated(a, newline) + terminated(b, newline),
    decreases b.len(),
{
    if b.len() == 0 {
        assert(a + b =~= a);
        assert(terminated(a, newline) + terminated(b, newline) =~= terminated(a, newline));
    } else {
        lemma_terminated_concat(a, b.drop_last(), newline);
        assert((a + b).drop_last() =~= a + b.drop_last());
        assert((a + b).last() == b.last());
        assert(terminated(a + b, newline) =~= terminated(a, newline) + terminated(b, newline));
    }
}

/// Lines after lines are lines.
pub proof fn lemma_lines_concat(a: Seq<u8>, b: Seq<u8>, newline: Seq<u8>)
    requires
        lines_only(a, newline),
        lines_only(b, newline),
    ensures
        lines_only(a + b, newline),
{
    let first = choose|bodies: Seq<Seq<u8>>|
        a == terminated(bodies, newline) && forall|i: int|
            0 <= i < bodies.len() ==> break_free(#[trigger] bodies[i]);
    let second = choose|bodies: Seq<Seq<u8>>|
        b == terminated(bodies, newline) && forall|i: int|
            0 <= i < bodies.len() ==> break_free(#[trigger] bodies[i]);
    lemma_terminated_concat(first, second, newline);
    let both = first + second;
    assert forall|i: int| 0 <= i < both.len() implies break_free(#[trigger] both[i]) by {
        if i < first.len() {
            assert(both[i] == first[i]);
        } else {
            assert(both[i] == second[i - first.len()]);
        }
    }
    assert(a + b == terminated(both, newline));
}

/// An ASCII text without a line break character has no line break byte.
pub proof fn lemma_plain_text(chars: Seq<char>)
    requires
        is_ascii_chars(chars),
        forall|i: int| 0 <= i < chars.len() ==> #[trigger] chars[i] != '\n' && chars[i] != '\r',
    ensures
        break_free(text(chars)),
{
    is_ascii_chars_encode_utf8(chars);
    assert forall|i: int| 0 <= i < text(chars).len() implies #[trigger] text(chars)[i] != 10
        && text(chars)[i] != 13 by {
        assert(chars[i] as u8 == text(chars)[i]);
        assert(chars[i] != '\n' && chars[i] != '\r');
    }
}

/// The fixed words of the header hold no line break.
pub proof fn lemma_fixed_words()
    ensures
        break_free(text("ply"@)),
        break_free(text("format "@)),
        break_free(text(" "@)),
        break_free(text("."@)),
        break_free(text("comment "@)),
        break_free(text("obj_info "@)),
        break_free(text("element "@)),
        break_free(text("property "@)),
        break_free(text("list "@)),
        break_free(text("end_header"@)),
{
    reveal_strlit("ply");
    lemma_plain_text("ply"@);
    reveal_strlit("format ");
    lemma_plain_text("format "@);
    reveal_strlit(" ");
    lemma_plain_text(" "@);
    reveal_strlit(".");
    lemma_plain_text("."@);
    reveal_strlit("comment ");
    lemma_plain_text("comment "@);
    reveal_strlit("obj_info ");
    lemma_plain_text("obj_info "@);
    reveal_strlit("element ");
    lemma_plain_text("element "@);
    reveal_strlit("property ");
    lemma_plain_text("property "@);
    reveal_strlit("list ");
    lemma_plain_text("list "@);
    reveal_strlit("end_header");
    lemma_plain_text("end_header"@);
}

/// The keyword of an encoding holds no line break.
pub proof fn lemma_encoding_keyword(encoding: Encoding)
    ensures
        break_free(text(encoding_keyword(encoding))),
{
    reveal_strlit("ascii");
    reveal_strlit("binary_big_endian");
    reveal_strlit("binary_little_endian");
    lemma_plain_text(encoding_keyword(encoding));
}

/// The keyword of a scalar type holds no line break.
pub proof fn lemma_scalar_keyword(data_type: PropertyType)
    ensures
        break_free(text(scalar_keyword(data_type))),
{
    reveal_strlit("char");
    reveal_strlit("uchar");
    reveal_strlit("short");
    reveal_strlit("ushort");
    reveal_strlit("int");
    reveal_strlit("uint");
    reveal_strlit("float");
    reveal_strlit("double");
    lemma_plain_text(scalar_keyword(data_type));
}

/// A number in base ten holds no line break.
pub proof fn lemma_decimal_plain(n: nat)
    ensures
        break_free(decimal(n)),
{
    lemma_decimal_digits(n);
}

/// A signed number in base ten holds no line break.
pub proof fn lemma_signed_decimal_plain(v: int)
    ensures
        break_free(signed_decimal(v)),
{
    if v < 0 {
        lemma_decimal_plain((-v) as nat);
    } else {
        lemma_decimal_plain(v as nat);
    }
}

/// The type tokens of a property line hold no line break.
pub proof fn lemma_type_tokens_plain(data_type: PropertyType)
    ensures
        break_free(type_tokens(data_type).bytes),
    decreases data_type,
{
    lemma_fixed_words();
    match data_type {
        PropertyType::List(index_type, item_type) => {
            lemma_scalar_keyword(*index_type);
            lemma_type_tokens_plain(*item_type);
        },
        _ => {
            lemma_scalar_keyword(data_type);
        },
    }
}

/// Whether the bytes of a text hold no line break.
pub open spec fn plain(chars: Seq<char>) -> bool {
    break_free(text(chars))
}

/// Whether no comment, no object information and no name of a header holds
/// a line break.
pub open spec fn plain_header(header: HeaderView) -> bool {
    &&& forall|i: int| 0 <= i < header.comments.len() ==> plain(#[trigger] header.comments[i])
    &&& forall|i: int| 0 <= i < header.obj_infos.len() ==> plain(#[trigger] header.obj_infos[i])
    &&& forall|i: int|
        0 <= i < header.elements.len() ==> plain_element((#[trigger] header.elements[i]).1)
}

/// Whether neither the name of an element nor that of one of its
/// properties holds a line break.
pub open spec fn plain_element(element: ElementDefView) -> bool {
    &&& plain(element.name)
    &&& forall|j: int|
        0 <= j < element.properties.len() ==> plain((#[trigger] element.properties[j]).1.name)
}

/// Whether the decimal text of every floating-point number in a value is
/// free of line breaks.
pub open spec fn plain_value(value: Value) -> bool
    decreases value,
{
    match value {
        Value::Float(_, digits) => plain(digits),
        Value::Double(_, digits) => plain(digits),
        Value::List(items) => forall|i: int|
            0 <= i < items.len() ==> plain_value(#[trigger] items[i]),
        _ => true,
    }
}

/// Whether every value of an element is plain.
pub open spec fn plain_row(element: ElementView) -> bool {
    forall|i: int| 0 <= i < element.len() ==> plain_value((#[trigger] element[i]).1)
}

/// The magic line and the format line are lines of the writer's
/// terminator, for every policy.
pub proof fn law_fixed_lines(encoding: Encoding, version: Version, policy: NewLine)
    ensures
        lines_only(magic_line(policy.bytes()), policy.bytes()),
        lines_only(format_line(encoding, version, policy.bytes()), policy.bytes()),
        lines_only(end_header_line(policy.bytes()), policy.bytes()),
{
    let newline = policy.bytes();
    lemma_fixed_words();
    lemma_encoding_keyword(encoding);
    lemma_decimal_plain(version.major as nat);
    lemma_decimal_plain(version.minor as nat);
    lemma_one_line(text("ply"@), newline);
    lemma_one_line(text("end_header"@), newline);
    let body = text("format "@) + text(encoding_keyword(encoding)) + text(" "@) + decimal(
        version.major as nat,
    ) + text("."@) + decimal(version.minor as nat);
    lemma_one_line(body, newline);
}

/// A comment line and an object information line whose text holds no
/// line break are lines of the writer's terminator.
pub proof fn law_note_lines(note: Seq<char>, policy: NewLine)
    requires
        plain(note),
    ensures
        lines_only(comment_line(note, policy.bytes()), policy.bytes()),
        lines_only(obj_info_line(note, policy.bytes()), policy.bytes()),
{
    lemma_fixed_words();
    lemma_one_line(text("comment "@) + text(note), policy.bytes());
    lemma_one_line(text("obj_info "@) + text(note), policy.bytes());
}

/// Comment lines of plain comments are lines.
pub proof fn lemma_comment_lines(comments: Seq<Seq<char>>, n: nat, policy: NewLine)
    requires
        n <= comments.len(),
        forall|i: int| 0 <= i < comments.len() ==> plain(#[trigger] comments[i]),
    ensures
        lines_only(comment_lines(comments, n, policy.bytes()), policy.bytes()),
    decreases n,
{
    if n == 0 {
        lemma_no_lines(policy.bytes());
    } else {
        lemma_comment_lines(comments, (n - 1) as nat, policy);
        law_note_lines(comments[n - 1], policy);
        lemma_lines_concat(
            comment_lines(comments, (n - 1) as nat, policy.bytes()),
            comment_line(comments[n - 1], policy.bytes()),
            policy.bytes(),
        );
    }
}

/// Object information lines of plain texts are lines.
pub proof fn lemma_obj_info_lines(obj_infos: Seq<Seq<char>>, n: nat, policy: NewLine)
    requires
        n <= obj_infos.len(),
        forall|i: int| 0 <= i < obj_infos.len() ==> plain(#[trigger] obj_infos[i]),
    ensures
        lines_only(obj_info_lines(obj_infos, n, policy.bytes()), policy.bytes()),
    decreases n,
{
    if n == 0 {
        lemma_no_lines(policy.bytes());
    } else {
        lemma_obj_info_lines(obj_infos, (n - 1) as nat, policy);
        law_note_lines(obj_infos[n - 1], policy);
        lemma_lines_concat(
            obj_info_lines(obj_infos, (n - 1) as nat, policy.bytes()),
            obj_info_line(obj_infos[n - 1], policy.bytes()),
            policy.bytes(),
        );
    }
}

/// A run of parts that all succeed and are lines each is lines.
pub proof fn lemma_parts_are_lines(parts: Seq<Emitted>, n: nat, newline: Seq<u8>)
    requires
        n <= parts.len(),
        forall|i: int|
            0 <= i < n ==> (#[trigger] parts[i]).fault is None && lines_only(
                parts[i].bytes,
                newline,
            ),
    ensures
        Emitted::first(parts, n).fault is None,
        lines_only(Emitted::first(parts, n).bytes, newline),
    decreases n,
{
    if n == 0 {
        lemma_no_lines(newline);
    } else {
        lemma_parts_are_lines(parts, (n - 1) as nat, newline);
        assert(parts[n - 1].fault is None);
        lemma_lines_concat(
            Emitted::first(parts, (n - 1) as nat).bytes,
            parts[n - 1].bytes,
            newline,
        );
    }
}

/// The block of an element with plain names and valid types is lines of
/// the writer's terminator.
pub proof fn law_element_block_lines(element: ElementDefView, policy: NewLine)
    requires
        plain_element(element),
        element_block(element, policy.bytes()).fault is None,
    ensures
        lines_only(element_block(element, policy.bytes()).bytes, policy.bytes()),
{
    let newline = policy.bytes();
    lemma_fixed_words();
    lemma_decimal_plain(element.count);
    lemma_one_line(
        text("element "@) + text(element.name) + text(" "@) + decimal(element.count),
        newline,
    );
    let lines = property_lines(element.properties, newline);
    lemma_first_fault(lines, lines.len());
    assert forall|j: int| 0 <= j < lines.len() implies (#[trigger] lines[j]).fault is None
        && lines_only(lines[j].bytes, newline) by {
        let property = element.properties[j].1;
        assert(plain(property.name));
        lemma_type_tokens_plain(property.data_type);
        let body = text("property "@) + type_tokens(property.data_type).bytes + text(" "@)
            + text(property.name);
        lemma_one_line(body, newline);
        assert(lines[j].bytes =~= body + newline);
    }
    lemma_parts_are_lines(lines, lines.len(), newline);
    lemma_lines_concat(element_line(element, newline), Emitted::all(lines).bytes, newline);
}

/// For every newline policy: a header that is written in full, and whose
/// comments, object information and names hold no line break, consists of
/// lines that each end with the policy's terminator and hold no other
/// line break.
pub proof fn law_header_lines(header: HeaderView, policy: NewLine)
    requires
        plain_header(header),
        header_bytes(header, policy.bytes()).fault is None,
    ensures
        lines_only(header_bytes(header, policy.bytes()).bytes, policy.bytes()),
{
    let newline = policy.bytes();
    law_fixed_lines(header.encoding, header.version, policy);
    lemma_comment_lines(header.comments, header.comments.len(), policy);
    lemma_obj_info_lines(header.obj_infos, header.obj_infos.len(), policy);
    let top = magic_line(newline) + format_line(header.encoding, header.version, newline);
    lemma_lines_concat(
        magic_line(newline),
        format_line(header.encoding, header.version, newline),
        newline,
    );
    lemma_lines_concat(
        top,
        comment_lines(header.comments, header.comments.len(), newline),
        newline,
    );
    lemma_lines_concat(
        top + comment_lines(header.comments, header.comments.len(), newline),
        obj_info_lines(header.obj_infos, header.obj_infos.len(), newline),
        newline,
    );
    assert(lines_only(preamble(header, newline), newline));
    let blocks = element_blocks(header.elements, newline);
    lemma_first_fault(blocks, blocks.len());
    assert forall|i: int| 0 <= i < blocks.len() implies (#[trigger] blocks[i]).fault is None
        && lines_only(blocks[i].bytes, newline) by {
        assert(plain_element(header.elements[i].1));
        law_element_block_lines(header.elements[i].1, policy);
    }
    lemma_parts_are_lines(blocks, blocks.len(), newline);
    lemma_lines_concat(preamble(header, newline), Emitted::all(blocks).bytes, newline);
    lemma_lines_concat(
        preamble(header, newline) + Emitted::all(blocks).bytes,
        end_header_line(newline),
        newline,
    );
}

/// The text of a plain value holds no line break.
pub proof fn lemma_ascii_value_plain(value: Value)
    requires
        plain_value(value),
    ensures
        break_free(ascii_value(value)),
    decreases value, 0nat,
{
    match value {
        Value::Char(v) => lemma_signed_decimal_plain(v as int),
        Value::UChar(v) => lemma_decimal_plain(v as nat),
        Value::Short(v) => lemma_signed_decimal_plain(v as int),
        Value::UShort(v) => lemma_decimal_plain(v as nat),
        Value::Int(v) => lemma_signed_decimal_plain(v as int),
        Value::UInt(v) => lemma_decimal_plain(v as nat),
        Value::Float(_, _) => {},
        Value::Double(_, _) => {},
        Value::List(items) => {
            lemma_decimal_plain(items.len());
            lemma_ascii_items_plain(items, items.len());
        },
    }
}

/// The text of the items of a plain list holds no line break.
pub proof fn lemma_ascii_items_plain(items: Seq<Value>, n: nat)
    requires
        n <= items.len(),
        forall|i: int| 0 <= i < items.len() ==> plain_value(#[trigger] items[i]),
    ensures
        break_free(ascii_items(items, n)),
    decreases items, n,
{
    if n > 0 {
        lemma_fixed_words();
        lemma_ascii_items_plain(items, (n - 1) as nat);
        lemma_ascii_value_plain(items[n - 1]);
    }
}

/// The values of a plain element, joined by spaces, hold no line break.
pub proof fn lemma_ascii_fields_plain(element: ElementView, n: nat)
    requires
        n <= element.len(),
        plain_row(element),
    ensures
        break_free(ascii_fields(element, n)),
    decreases n,
{
    if n > 0 {
        lemma_fixed_words();
        lemma_ascii_fields_plain(element, (n - 1) as nat);
        lemma_ascii_value_plain(element[n - 1].1);
    }
}

/// For every newline policy: the ascii row of an element whose decimal
/// texts hold no line break is one line that ends with the policy's
/// terminator and holds no other line break.
pub proof fn law_ascii_row_line(element: ElementView, policy: NewLine)
    requires
        plain_row(element),
    ensures
        break_free(ascii_fields(element, element.len())),
        ascii_row(element, policy.bytes()) == ascii_fields(element, element.len())
            + policy.bytes(),
        lines_only(ascii_row(element, policy.bytes()), policy.bytes()),
{
    lemma_ascii_fields_plain(element, element.len());
    lemma_one_line(ascii_fields(element, element.len()), policy.bytes());
}

/// Whether every element of a list converts, for the given definition,
/// into a plain element.
pub open spec fn plain_rows<P: ToElement<P>>(
    elements: Seq<P>,
    element_def: ElementDefView,
) -> bool {
    forall|i: int|
        0 <= i < elements.len() ==> ((#[trigger] elements[i]).element_for(element_def) matches Ok(
            element,
        ) && plain_row(element))
}

/// For every newline policy: the ascii rows of elements that convert into
/// plain elements are all written, as lines of the policy's terminator.
pub proof fn law_ascii_rows_lines<P: ToElement<P>>(
    elements: Seq<P>,
    element_def: ElementDefView,
    policy: NewLine,
)
    requires
        plain_rows(elements, element_def),
    ensures
        Emitted::all(rows(elements, element_def, Encoding::Ascii, policy.bytes())).fault is None,
        lines_only(
            Emitted::all(rows(elements, element_def, Encoding::Ascii, policy.bytes())).bytes,
            policy.bytes(),
        ),
{
    let newline = policy.bytes();
    let parts = rows(elements, element_def, Encoding::Ascii, newline);
    assert forall|i: int| 0 <= i < parts.len() implies (#[trigger] parts[i]).fault is None
        && lines_only(parts[i].bytes, newline) by {
        let outcome = elements[i].element_for(element_def);
        assert(outcome is Ok);
        law_ascii_row_line(outcome->Ok_0, policy);
    }
    lemma_parts_are_lines(parts, parts.len(), newline);
}

/// For every newline policy: an ascii document that is written in full,
/// whose header is plain and whose elements all convert into plain
/// elements, consists of lines that each end with the policy's terminator
/// and hold no other line break.
pub proof fn law_ascii_document_lines<P: ToElement<P>>(
    header: HeaderView,
    payload: Seq<(Seq<char>, Seq<P>)>,
    policy: NewLine,
)
    requires
        header.encoding == Encoding::Ascii,
        plain_header(header),
        document_bytes(header, payload, policy.bytes()).fault is None,
        forall|i: int|
            0 <= i < header.elements.len() ==> (lookup(
                payload,
                (#[trigger] header.elements[i]).0,
            ) matches Some(elements) ==> plain_rows(elements, header.elements[i].1)),
    ensures
        lines_only(document_bytes(header, payload, policy.bytes()).bytes, policy.bytes()),
{
    let newline = policy.bytes();
    law_header_lines(header, policy);
    let parts = payload_blocks(payload, header, newline);
    lemma_first_fault(parts, parts.len());
    assert forall|i: int| 0 <= i < parts.len() implies (#[trigger] parts[i]).fault is None
        && lines_only(parts[i].bytes, newline) by {
        let found = lookup(payload, header.elements[i].0);
        assert(parts[i].fault is None);
        assert(found is Some);
        law_ascii_rows_lines(found->Some_0, header.elements[i].1, policy);
    }
    lemma_parts_are_lines(parts, parts.len(), newline);
    lemma_lines_concat(
        header_bytes(header, newline).bytes,
        payload_bytes(payload, header, newline).bytes,
        newline,
    );
}

} // verus!
