//! Reading one line of a header back into what it states.

use crate::decimal::decimal;
use crate::error::Emitted;
use crate::laws::{valid_element, valid_header, valid_type};
use crate::layout::{
    comment_body, element_body, encoding_keyword, end_header_body, format_body, invalid_index,
    magic_body, obj_info_body, property_body, scalar_keyword, text, type_tokens,
};
use crate::ply::{
    is_token, ElementDefView, Encoding, HeaderView, PropertyDefView, PropertyType, Version,
};
use crate::reading::ascii::{
    ends_token, lemma_parse_unsigned, lemma_read_token, lemma_space, parse_unsigned, read_token,
};
use crate::reading::header_lines::{
    block_bodies, blocks_bodies, comment_bodies, header_bodies, lemma_line_heads, obj_info_bodies,
};
use crate::reading::scan::{lemma_run_len, run_len};
use vstd::prelude::*;
use vstd::utf8::{is_ascii_chars, is_ascii_chars_encode_utf8};

verus! {

/// What one line of a header states.
pub enum Line {
    Magic,
    /// Encoding, major version, minor version.
    Format(Encoding, nat, nat),
    Comment(Seq<u8>),
    ObjInfo(Seq<u8>),
    /// Name and count.
    Element(Seq<u8>, nat),
    /// Type and name.
    Property(PropertyType, Seq<u8>),
    End,
}

/// Whether `input` begins with `word`.
pub open spec fn begins_with(input: Seq<u8>, word: Seq<u8>) -> bool {
    input.len() >= word.len() && input.subrange(0, word.len() as int) == word
}

/// The ASCII digits.
pub open spec fn digit_byte() -> spec_fn(u8) -> bool {
    |byte: u8| 48 <= byte <= 57
}

/// The encoding that a keyword names.
pub open spec fn read_encoding(word: Seq<u8>) -> Option<Encoding> {
    if word == text(encoding_keyword(Encoding::Ascii)) {
        Some(Encoding::Ascii)
    } else if word == text(encoding_keyword(Encoding::BinaryBigEndian)) {
        Some(Encoding::BinaryBigEndian)
    } else if word == text(encoding_keyword(Encoding::BinaryLittleEndian)) {
        Some(Encoding::BinaryLittleEndian)
    } else {
        None
    }
}

/// The scalar type that a keyword names.
pub open spec fn read_scalar_type(word: Seq<u8>) -> Option<PropertyType> {
    if word == text(scalar_keyword(PropertyType::Char)) {
        Some(PropertyType::Char)
    } else if word == text(scalar_keyword(PropertyType::UChar)) {
        Some(PropertyType::UChar)
    } else if word == text(scalar_keyword(PropertyType::Short)) {
        Some(PropertyType::Short)
    } else if word == text(scalar_keyword(PropertyType::UShort)) {
        Some(PropertyType::UShort)
    } else if word == text(scalar_keyword(PropertyType::Int)) {
        Some(PropertyType::Int)
    } else if word == text(scalar_keyword(PropertyType::UInt)) {
        Some(PropertyType::UInt)
    } else if word == text(scalar_keyword(PropertyType::Float)) {
        Some(PropertyType::Float)
    } else if word == text(scalar_keyword(PropertyType::Double)) {
        Some(PropertyType::Double)
    } else {
        None
    }
}

/// Reads the type tokens at the front of `input`: a scalar keyword, or
/// the word `list`, an integer keyword and the tokens of the item type.
pub open spec fn read_type(input: Seq<u8>) -> Option<(PropertyType, Seq<u8>)>
    decreases input.len(),
{
    match read_token(input) {
        None => None,
        Some((word, rest)) => if word == text("list"@) {
            if rest.len() > 0 && rest[0] == 32 {
                match read_token(rest.skip(1)) {
                    None => None,
                    Some((index_word, more)) => match read_scalar_type(index_word) {
                        None => None,
                        Some(index_type) => if invalid_index(index_type) is None && more.len() > 0
                            && more[0] == 32 && more.len() <= input.len() {
                            match read_type(more.skip(1)) {
                                Some((item_type, left)) => Some(
                                    (
                                        PropertyType::List(
                                            Box::new(index_type),
                                            Box::new(item_type),
                                        ),
                                        left,
                                    ),
                                ),
                                None => None,
                            }
                        } else {
                            None
                        },
                    },
                }
            } else {
                None
            }
        } else {
            match read_scalar_type(word) {
                Some(data_type) => Some((data_type, rest)),
                None => None,
            }
        },
    }
}

/// Reads what follows `format ` in a format line.
pub open spec fn read_format(input: Seq<u8>) -> Option<Line> {
    match read_token(input) {
        None => None,
        Some((word, rest)) => match read_encoding(word) {
            None => None,
            Some(encoding) => if rest.len() > 0 && rest[0] == 32 {
                let version = rest.skip(1);
                let n = run_len(version, digit_byte());
                if version.len() > n && version[n as int] == 46 {
                    match (
                        parse_unsigned(version.subrange(0, n as int)),
                        parse_unsigned(version.skip((n + 1) as int)),
                    ) {
                        (Some(major), Some(minor)) => Some(Line::Format(encoding, major, minor)),
                        _ => None,
                    }
                } else {
                    None
                }
            } else {
                None
            },
        },
    }
}

/// Reads what follows `element ` in an element line.
pub open spec fn read_element(input: Seq<u8>) -> Option<Line> {
    match read_token(input) {
        None => None,
        Some((name, rest)) => if rest.len() > 0 && rest[0] == 32 {
            match parse_unsigned(rest.skip(1)) {
                Some(count) => Some(Line::Element(name, count)),
                None => None,
            }
        } else {
            None
        },
    }
}

/// Reads what follows `property ` in a property line.
pub open spec fn read_property(input: Seq<u8>) -> Option<Line> {
    match read_type(input) {
        None => None,
        Some((data_type, rest)) => if rest.len() > 0 && rest[0] == 32 && is_token(rest.skip(1)) {
            Some(Line::Property(data_type, rest.skip(1)))
        } else {
            None
        },
    }
}

/// Reads the text of one header line.
pub open spec fn read_header_line(body: Seq<u8>) -> Option<Line> {
    if body == magic_body() {
        Some(Line::Magic)
    } else if body == end_header_body() {
        Some(Line::End)
    } else if begins_with(body, text("format "@)) {
        read_format(body.skip(text("format "@).len() as int))
    } else if begins_with(body, text("comment "@)) {
        Some(Line::Comment(body.skip(text("comment "@).len() as int)))
    } else if begins_with(body, text("obj_info "@)) {
        Some(Line::ObjInfo(body.skip(text("obj_info "@).len() as int)))
    } else if begins_with(body, text("element "@)) {
        read_element(body.skip(text("element "@).len() as int))
    } else if begins_with(body, text("property "@)) {
        read_property(body.skip(text("property "@).len() as int))
    } else {
        None
    }
}

/// An ASCII text is, byte for byte, its characters.
pub proof fn lemma_ascii_text(chars: Seq<char>)
    requires
        is_ascii_chars(chars),
    ensures
        text(chars).len() == chars.len(),
        forall|i: int| 0 <= i < chars.len() ==> #[trigger] text(chars)[i] == chars[i] as u8,
{
    is_ascii_chars_encode_utf8(chars);
}

/// The keywords of the scalar types and the word `list` are tokens of
/// these lengths and first bytes.
pub proof fn lemma_type_words()
    ensures
        is_token(text("char"@)) && text("char"@).len() == 4 && text("char"@)[0] == 99,
        is_token(text("uchar"@)) && text("uchar"@).len() == 5 && text("uchar"@)[0] == 117,
        is_token(text("short"@)) && text("short"@).len() == 5 && text("short"@)[0] == 115,
        is_token(text("ushort"@)) && text("ushort"@).len() == 6 && text("ushort"@)[0] == 117,
        is_token(text("int"@)) && text("int"@).len() == 3 && text("int"@)[0] == 105,
        is_token(text("uint"@)) && text("uint"@).len() == 4 && text("uint"@)[0] == 117,
        is_token(text("float"@)) && text("float"@).len() == 5 && text("float"@)[0] == 102,
        is_token(text("double"@)) && text("double"@).len() == 6 && text("double"@)[0] == 100,
        is_token(text("list"@)) && text("list"@).len() == 4 && text("list"@)[0] == 108,
        text("list "@) == text("list"@) + seq![32u8],
{
    reveal_strlit("char");
    reveal_strlit("uchar");
    reveal_strlit("short");
    reveal_strlit("ushort");
    reveal_strlit("int");
    reveal_strlit("uint");
    reveal_strlit("float");
    reveal_strlit("double");
    reveal_strlit("list");
    reveal_strlit("list ");
    lemma_ascii_text("char"@);
    lemma_ascii_text("uchar"@);
    lemma_ascii_text("short"@);
    lemma_ascii_text("ushort"@);
    lemma_ascii_text("int"@);
    lemma_ascii_text("uint"@);
    lemma_ascii_text("float"@);
    lemma_ascii_text("double"@);
    lemma_ascii_text("list"@);
    lemma_ascii_text("list "@);
    assert(text("list "@) =~= text("list"@) + seq![32u8]);
}

/// The keywords of the encodings are tokens of these lengths.
pub proof fn lemma_encoding_words()
    ensures
        is_token(text("ascii"@)) && text("ascii"@).len() == 5,
        is_token(text("binary_big_endian"@)) && text("binary_big_endian"@).len() == 17,
        is_token(text("binary_little_endian"@)) && text("binary_little_endian"@).len() == 20,
{
    reveal_strlit("ascii");
    reveal_strlit("binary_big_endian");
    reveal_strlit("binary_little_endian");
    lemma_ascii_text("ascii"@);
    lemma_ascii_text("binary_big_endian"@);
    lemma_ascii_text("binary_little_endian"@);
}

/// The keyword of a scalar type is a token that names that type and no
/// other, and is not the word `list`.
pub proof fn lemma_read_scalar_type(data_type: PropertyType)
    requires
        !(data_type is List),
    ensures
        is_token(text(scalar_keyword(data_type))),
        text(scalar_keyword(data_type)) != text("list"@),
        read_scalar_type(text(scalar_keyword(data_type))) == Some(data_type),
{
    lemma_type_words();
}

/// The keyword of an encoding is a token that names that encoding and no
/// other.
pub proof fn lemma_read_encoding(encoding: Encoding)
    ensures
        is_token(text(encoding_keyword(encoding))),
        read_encoding(text(encoding_keyword(encoding))) == Some(encoding),
{
    lemma_encoding_words();
}

/// The word `list` is a token, and in the header a space follows it.
pub proof fn lemma_list_word()
    ensures
        is_token(text("list"@)),
        text("list "@) == text("list"@) + seq![32u8],
        text(" "@) == seq![32u8],
{
    lemma_type_words();
    lemma_space();
}

/// From the keyword of a scalar type, followed by the end of a token, the
/// type is read back.
pub proof fn lemma_scalar_type_round_trip(data_type: PropertyType, rest: Seq<u8>)
    requires
        !(data_type is List),
        ends_token(rest),
    ensures
        type_tokens(data_type) == Emitted::plain(text(scalar_keyword(data_type))),
        is_token(text(scalar_keyword(data_type))),
        read_type(text(scalar_keyword(data_type)) + rest) == Some((data_type, rest)),
{
    lemma_read_scalar_type(data_type);
    lemma_read_token(text(scalar_keyword(data_type)), rest);
}

/// From the tokens of a list type whose item type is read back, the list
/// type is read back.
pub proof fn lemma_list_type_round_trip(
    index_type: PropertyType,
    item_type: PropertyType,
    rest: Seq<u8>,
)
    requires
        invalid_index(index_type) is None,
        type_tokens(item_type).fault is None,
        read_type(type_tokens(item_type).bytes + rest) == Some((item_type, rest)),
    ensures
        read_type(
            type_tokens(PropertyType::List(Box::new(index_type), Box::new(item_type))).bytes + rest,
        ) == Some((PropertyType::List(Box::new(index_type), Box::new(item_type)), rest)),
{
    let data_type = PropertyType::List(Box::new(index_type), Box::new(item_type));
    let list_word = text("list"@);
    let index_word = text(scalar_keyword(index_type));
    let item = type_tokens(item_type).bytes;
    let input = type_tokens(data_type).bytes + rest;
    let after_list = seq![32u8] + index_word + seq![32u8] + item + rest;
    let after_index = seq![32u8] + item + rest;
    lemma_list_word();
    lemma_read_scalar_type(index_type);
    assert(input =~= list_word + after_list);
    assert(after_list[0] == 32);
    lemma_read_token(list_word, after_list);
    assert(read_token(input) == Some((list_word, after_list)));
    assert(after_list.skip(1) =~= index_word + after_index);
    assert(after_index[0] == 32);
    lemma_read_token(index_word, after_index);
    assert(read_token(after_list.skip(1)) == Some((index_word, after_index)));
    assert(after_index.skip(1) =~= item + rest);
    assert(after_index.len() <= input.len());
}

/// From the type tokens of a valid type, followed by the end of a token,
/// the type is read back, and what follows is left.
pub proof fn law_type_round_trip(data_type: PropertyType, rest: Seq<u8>)
    requires
        valid_type(data_type),
        ends_token(rest),
    ensures
        type_tokens(data_type).fault is None,
        read_type(type_tokens(data_type).bytes + rest) == Some((data_type, rest)),
    decreases data_type,
{
    match data_type {
        PropertyType::List(index_type, item_type) => {
            law_type_round_trip(*item_type, rest);
            lemma_list_type_round_trip(*index_type, *item_type, rest);
        },
        _ => {
            lemma_scalar_type_round_trip(data_type, rest);
        },
    }
}

/// Skipping the word at the front of a text leaves the rest.
pub proof fn lemma_after_word(word: Seq<u8>, rest: Seq<u8>)
    ensures
        begins_with(word + rest, word),
        (word + rest).skip(word.len() as int) == rest,
{
    assert((word + rest).subrange(0, word.len() as int) =~= word);
    assert((word + rest).skip(word.len() as int) =~= rest);
}

/// The closing line reads as the closing line.
pub proof fn law_read_end()
    ensures
        read_header_line(end_header_body()) == Some(Line::End),
{
    lemma_line_heads();
}

/// The format line reads as its encoding and version.
pub proof fn law_read_format(encoding: Encoding, version: Version)
    ensures
        read_header_line(format_body(encoding, version)) == Some(
            Line::Format(encoding, version.major as nat, version.minor as nat),
        ),
{
    lemma_line_heads();
    lemma_space();
    lemma_read_encoding(encoding);
    lemma_dot();
    let body = format_body(encoding, version);
    let word = text(encoding_keyword(encoding));
    let major = decimal(version.major as nat);
    let minor = decimal(version.minor as nat);
    let after_word = seq![32u8] + major + seq![46u8] + minor;
    let after_major = seq![46u8] + minor;
    lemma_parse_unsigned(version.major as nat);
    lemma_parse_unsigned(version.minor as nat);
    assert(body =~= text("format "@) + (word + after_word));
    assert(body[0] == 102);
    lemma_after_word(text("format "@), word + after_word);
    assert(after_word[0] == 32);
    lemma_read_token(word, after_word);
    assert(after_word.skip(1) =~= major + after_major);
    assert(after_major[0] == 46);
    lemma_run_len(major, after_major, digit_byte());
    assert((major + after_major)[major.len() as int] == 46);
    assert((major + after_major).skip((major.len() + 1) as int) =~= minor);
}

/// A full stop is the one byte 46.
pub proof fn lemma_dot()
    ensures
        text("."@) == seq![46u8],
{
    reveal_strlit(".");
    lemma_ascii_text("."@);
    assert(text("."@) =~= seq![46u8]);
}

/// A comment line reads as its text.
pub proof fn law_read_comment(comment: Seq<char>)
    ensures
        read_header_line(comment_body(comment)) == Some(Line::Comment(text(comment))),
{
    lemma_line_heads();
    let body = comment_body(comment);
    assert(body[0] == 99);
    lemma_after_word(text("comment "@), text(comment));
}

/// An object information line reads as its text.
pub proof fn law_read_obj_info(obj_info: Seq<char>)
    ensures
        read_header_line(obj_info_body(obj_info)) == Some(Line::ObjInfo(text(obj_info))),
{
    lemma_line_heads();
    let body = obj_info_body(obj_info);
    assert(body[0] == 111);
    lemma_after_word(text("obj_info "@), text(obj_info));
}

/// The line of an element whose name is a token reads as that name and
/// the count.
pub proof fn law_read_element(element: ElementDefView)
    requires
        is_token(text(element.name)),
    ensures
        read_header_line(element_body(element)) == Some(
            Line::Element(text(element.name), element.count),
        ),
{
    lemma_line_heads();
    lemma_space();
    lemma_parse_unsigned(element.count);
    let body = element_body(element);
    let after_name = seq![32u8] + decimal(element.count);
    assert(body =~= text("element "@) + (text(element.name) + after_name));
    assert(body[0] == 101);
    assert(body[1] == 108);
    lemma_after_word(text("element "@), text(element.name) + after_name);
    assert(after_name[0] == 32);
    lemma_read_token(text(element.name), after_name);
    assert(after_name.skip(1) =~= decimal(element.count));
}

/// The line of a property of a valid type whose name is a token reads as
/// that type and that name.
pub proof fn law_read_property(property: PropertyDefView)
    requires
        valid_type(property.data_type),
        is_token(text(property.name)),
    ensures
        read_header_line(property_body(property)) == Some(
            Line::Property(property.data_type, text(property.name)),
        ),
{
    lemma_line_heads();
    lemma_space();
    let body = property_body(property);
    let tokens = type_tokens(property.data_type).bytes;
    let after_type = seq![32u8] + text(property.name);
    assert(after_type[0] == 32);
    law_type_round_trip(property.data_type, after_type);
    assert(body =~= text("property "@) + (tokens + after_type));
    assert(body[0] == 112);
    lemma_after_word(text("property "@), tokens + after_type);
    assert(after_type.skip(1) =~= text(property.name));
}

/// What the comment lines state.
pub open spec fn comment_lines_of(comments: Seq<Seq<char>>) -> Seq<Line> {
    Seq::new(comments.len(), |i: int| Line::Comment(text(comments[i])))
}

/// What the object information lines state.
pub open spec fn obj_info_lines_of(obj_infos: Seq<Seq<char>>) -> Seq<Line> {
    Seq::new(obj_infos.len(), |i: int| Line::ObjInfo(text(obj_infos[i])))
}

/// What the lines of an element block state.
pub open spec fn block_lines_of(element: ElementDefView) -> Seq<Line> {
    seq![Line::Element(text(element.name), element.count)] + Seq::new(
        element.properties.len(),
        |j: int|
            Line::Property(element.properties[j].1.data_type, text(element.properties[j].1.name)),
    )
}

/// What the lines of the first `n` element blocks state.
pub open spec fn blocks_lines_of(elements: Seq<(Seq<char>, ElementDefView)>, n: nat) -> Seq<Line>
    decreases n,
{
    if n == 0 {
        Seq::empty()
    } else {
        blocks_lines_of(elements, (n - 1) as nat) + block_lines_of(elements[n - 1].1)
    }
}

/// What the lines of a header state, in order.
pub open spec fn header_lines_of(header: HeaderView) -> Seq<Line> {
    seq![
        Line::Magic,
        Line::Format(header.encoding, header.version.major as nat, header.version.minor as nat),
    ] + comment_lines_of(header.comments) + obj_info_lines_of(header.obj_infos) + blocks_lines_of(
        header.elements,
        header.elements.len(),
    ) + seq![Line::End]
}

/// Whether the texts read, line for line, as `lines`.
pub open spec fn read_as(bodies: Seq<Seq<u8>>, lines: Seq<Line>) -> bool {
    bodies.len() == lines.len() && forall|i: int|
        0 <= i < bodies.len() ==> read_header_line(#[trigger] bodies[i]) == Some(lines[i])
}

/// Texts that read as lines, followed by more that do, read as the lines
/// of both.
pub proof fn lemma_read_as_concat(
    first: Seq<Seq<u8>>,
    first_lines: Seq<Line>,
    second: Seq<Seq<u8>>,
    second_lines: Seq<Line>,
)
    requires
        read_as(first, first_lines),
        read_as(second, second_lines),
    ensures
        read_as(first + second, first_lines + second_lines),
{
    let bodies = first + second;
    let lines = first_lines + second_lines;
    assert forall|i: int| 0 <= i < bodies.len() implies read_header_line(#[trigger] bodies[i])
        == Some(lines[i]) by {
        if i < first.len() {
            assert(bodies[i] == first[i]);
        } else {
            assert(bodies[i] == second[i - first.len()]);
        }
    }
}

/// Whether the name of an element and those of its properties are tokens.
pub open spec fn token_names(element: ElementDefView) -> bool {
    &&& is_token(text(element.name))
    &&& forall|j: int|
        0 <= j < element.properties.len() ==> is_token(
            text((#[trigger] element.properties[j]).1.name),
        )
}

/// Whether the names in a header are tokens.
pub open spec fn header_token_names(header: HeaderView) -> bool {
    forall|i: int| 0 <= i < header.elements.len() ==> token_names((#[trigger] header.elements[i]).1)
}

/// The lines of the block of an element with valid types and token names
/// read as what they state.
pub proof fn lemma_read_block(element: ElementDefView)
    requires
        valid_element(element),
        token_names(element),
    ensures
        read_as(block_bodies(element), block_lines_of(element)),
{
    let bodies = block_bodies(element);
    let lines = block_lines_of(element);
    assert forall|i: int| 0 <= i < bodies.len() implies read_header_line(#[trigger] bodies[i])
        == Some(lines[i]) by {
        if i == 0 {
            law_read_element(element);
        } else {
            let property = element.properties[i - 1].1;
            assert(valid_type(property.data_type));
            assert(is_token(text(property.name)));
            law_read_property(property);
            assert(bodies[i] == property_body(property));
        }
    }
}

/// The lines of the first `n` blocks read as what they state.
pub proof fn lemma_read_blocks(elements: Seq<(Seq<char>, ElementDefView)>, n: nat)
    requires
        n <= elements.len(),
        forall|i: int|
            0 <= i < elements.len() ==> valid_element((#[trigger] elements[i]).1) && token_names(
                elements[i].1,
            ),
    ensures
        read_as(blocks_bodies(elements, n), blocks_lines_of(elements, n)),
    decreases n,
{
    if n > 0 {
        lemma_read_blocks(elements, (n - 1) as nat);
        lemma_read_block(elements[n - 1].1);
        lemma_read_as_concat(
            blocks_bodies(elements, (n - 1) as nat),
            blocks_lines_of(elements, (n - 1) as nat),
            block_bodies(elements[n - 1].1),
            block_lines_of(elements[n - 1].1),
        );
    }
}

/// Every line of a header whose declared types are valid and whose names
/// are tokens reads as what it states.
pub proof fn law_header_lines_read(header: HeaderView)
    requires
        valid_header(header),
        header_token_names(header),
    ensures
        read_as(header_bodies(header), header_lines_of(header)),
{
    let top = seq![magic_body(), format_body(header.encoding, header.version)];
    let top_lines = seq![
        Line::Magic,
        Line::Format(header.encoding, header.version.major as nat, header.version.minor as nat),
    ];
    law_read_format(header.encoding, header.version);
    assert(read_as(top, top_lines));
    let comments = comment_bodies(header.comments);
    assert forall|i: int| 0 <= i < comments.len() implies read_header_line(
        #[trigger] comments[i],
    ) == Some(comment_lines_of(header.comments)[i]) by {
        law_read_comment(header.comments[i]);
    }
    let obj_infos = obj_info_bodies(header.obj_infos);
    assert forall|i: int| 0 <= i < obj_infos.len() implies read_header_line(
        #[trigger] obj_infos[i],
    ) == Some(obj_info_lines_of(header.obj_infos)[i]) by {
        law_read_obj_info(header.obj_infos[i]);
    }
    assert forall|i: int| 0 <= i < header.elements.len() implies valid_element(
        (#[trigger] header.elements[i]).1,
    ) && token_names(header.elements[i].1) by {
        assert forall|j: int| 0 <= j < header.elements[i].1.properties.len() implies valid_type(
            (#[trigger] header.elements[i].1.properties[j]).1.data_type,
        ) by {}
    }
    lemma_read_blocks(header.elements, header.elements.len());
    law_read_end();
    let end = seq![end_header_body()];
    assert(read_as(end, seq![Line::End]));
    lemma_read_as_concat(top, top_lines, comments, comment_lines_of(header.comments));
    lemma_read_as_concat(
        top + comments,
        top_lines + comment_lines_of(header.comments),
        obj_infos,
        obj_info_lines_of(header.obj_infos),
    );
    lemma_read_as_concat(
        top + comments + obj_infos,
        top_lines + comment_lines_of(header.comments) + obj_info_lines_of(header.obj_infos),
        blocks_bodies(header.elements, header.elements.len()),
        blocks_lines_of(header.elements, header.elements.len()),
    );
    lemma_read_as_concat(
        top + comments + obj_infos + blocks_bodies(header.elements, header.elements.len()),
        top_lines + comment_lines_of(header.comments) + obj_info_lines_of(header.obj_infos)
            + blocks_lines_of(header.elements, header.elements.len()),
        end,
        seq![Line::End],
    );
}

} // verus!
