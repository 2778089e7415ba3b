//! The writer: a document in, the bytes of a PLY file out.
//!
//! Every function appends to a byte buffer and returns the number of bytes
//! it appended. When a write stops on an error, what was appended before
//! stays in the buffer.

use crate::convert::{outcome_view, ToElement};
use crate::decimal::{push_decimal, push_signed_decimal};
use crate::error::{lemma_next_part, ConversionError, Emitted, Fault, IndexKind, Stage, WriteError};
use crate::layout::{
    ascii_fields, ascii_items, ascii_row, ascii_value, binary_field, binary_fields, binary_items,
    binary_row, binary_value, comment_line, comment_lines, converted_row, count_field,
    document_bytes, element_block, element_blocks, element_line, element_rows, encoded_row,
    encoding_keyword, end_header_line, format_line, header_bytes, invalid_index,
    lemma_binary_items_stopped, magic_line, obj_info_line, obj_info_lines, payload_blocks,
    payload_bytes, preamble, property_line, property_lines, rows, scalar_keyword, text, type_tokens,
};
use crate::lines::{
    law_ascii_row_line, law_header_lines, lemma_lines_concat, lemma_no_lines, lines_only,
    plain_header, plain_row, plain_value,
};
use crate::ply::{
    lemma_values_of, DefaultElement, ElementDef, Encoding, Header, Payload, Ply, Property,
    PropertyDef, PropertyType, Value, Version,
};
use crate::wire::{
    lemma_pow256, put_i16, put_i32, put_i8, put_u16, put_u32, put_u64, put_u8, Endian,
};
use std::marker::PhantomData;
use vstd::prelude::*;

verus! {

/// The line terminator of header lines and ascii rows.
#[derive(Clone, Copy, Debug, PartialEq, Eq, Structural)]
pub enum NewLine {
    /// Line feed.
    N,
    /// Carriage return.
    R,
    /// Carriage return, then line feed.
    RN,
}

impl NewLine {
    /// The bytes of the terminator.
    pub open spec fn bytes(self) -> Seq<u8> {
        match self {
            NewLine::N => seq![10u8],
            NewLine::R => seq![13u8],
            NewLine::RN => seq![13u8, 10u8],
        }
    }
}

/// Writes documents whose payload elements are of type `P`.
pub struct Writer<P: ToElement<P>> {
    new_line: NewLine,
    phantom: PhantomData<P>,
}

/// Appends the bytes of a text.
fn push_text(out: &mut Vec<u8>, chars: &str)
    ensures
        final(out)@ == old(out)@ + text(chars@),
{
    let bytes = chars.as_bytes();
    let ghost before = out@;
    let mut i: usize = 0;
    while i < bytes.len()
        invariant
            i <= bytes@.len(),
            out@ == before + bytes@.subrange(0, i as int),
        decreases bytes@.len() - i,
    {
        out.push(bytes[i]);
        assert(bytes@.subrange(0, i + 1) =~= bytes@.subrange(0, i as int).push(bytes@[i as int]));
        i = i + 1;
    }
    assert(bytes@.subrange(0, i as int) =~= bytes@);
}

impl<P: ToElement<P>> Writer<P> {
    /// The terminator this writer ends its lines with.
    pub closed spec fn new_line(&self) -> NewLine {
        self.new_line
    }

    /// The bytes this writer ends its lines with.
    pub open spec fn newline(&self) -> Seq<u8> {
        self.new_line().bytes()
    }

    /// A writer that ends its lines with carriage return and line feed.
    pub fn new() -> (writer: Self)
        ensures
            writer.new_line() == NewLine::RN,
    {
        Writer { new_line: NewLine::RN, phantom: PhantomData }
    }

    /// Chooses the line terminator for all later writes.
    pub fn set_newline(&mut self, new_line: NewLine)
        ensures
            final(self).new_line() == new_line,
    {
        self.new_line = new_line;
    }

    /// Writes the line terminator.
    fn write_new_line(&self, out: &mut Vec<u8>)
        ensures
            final(out)@ == old(out)@ + self.newline(),
    {
        let ghost before = out@;
        match self.new_line {
            NewLine::N => {
                out.push(10);
                assert(out@ =~= before + seq![10u8]);
            },
            NewLine::R => {
                out.push(13);
                assert(out@ =~= before + seq![13u8]);
            },
            NewLine::RN => {
                out.push(13);
                out.push(10);
                assert(out@ =~= before + seq![13u8, 10u8]);
            },
        }
    }

    /// Writes the line `ply`.
    pub fn write_line_magic_number(&self, out: &mut Vec<u8>) -> (result: Result<usize, WriteError>)
        ensures
            final(out)@ == old(out)@ + magic_line(self.newline()),
            result matches Ok(n) && n == magic_line(self.newline()).len(),
    {
        let start = out.len();
        let ghost before = out@;
        push_text(out, "ply");
        self.write_new_line(out);
        assert(out@ =~= before + magic_line(self.newline()));
        Ok(out.len() - start)
    }

    /// Writes the keyword of an encoding.
    fn write_encoding(&self, out: &mut Vec<u8>, encoding: &Encoding)
        ensures
            final(out)@ == old(out)@ + text(encoding_keyword(*encoding)),
    {
        match encoding {
            Encoding::Ascii => push_text(out, "ascii"),
            Encoding::BinaryBigEndian => push_text(out, "binary_big_endian"),
            Encoding::BinaryLittleEndian => push_text(out, "binary_little_endian"),
        }
    }

    /// Writes the line `format <encoding> <major>.<minor>`.
    pub fn write_line_format(
        &self,
        out: &mut Vec<u8>,
        encoding: &Encoding,
        version: &Version,
    ) -> (result: Result<usize, WriteError>)
        ensures
            final(out)@ == old(out)@ + format_line(*encoding, *version, self.newline()),
            result matches Ok(n) && n == format_line(*encoding, *version, self.newline()).len(),
    {
        let start = out.len();
        let ghost before = out@;
        push_text(out, "format ");
        self.write_encoding(out, encoding);
        push_text(out, " ");
        push_decimal(out, version.major as u64);
        push_text(out, ".");
        push_decimal(out, version.minor as u64);
        self.write_new_line(out);
        assert(out@ =~= before + format_line(*encoding, *version, self.newline()));
        Ok(out.len() - start)
    }

    /// Writes the line `comment <text>`.
    pub fn write_line_comment(&self, out: &mut Vec<u8>, comment: &String) -> (result: Result<
        usize,
        WriteError,
    >)
        ensures
            final(out)@ == old(out)@ + comment_line(comment@, self.newline()),
            result matches Ok(n) && n == comment_line(comment@, self.newline()).len(),
    {
        let start = out.len();
        let ghost before = out@;
        push_text(out, "comment ");
        push_text(out, comment.as_str());
        self.write_new_line(out);
        assert(out@ =~= before + comment_line(comment@, self.newline()));
        Ok(out.len() - start)
    }

    /// Writes the line `obj_info <text>`.
    pub fn write_line_obj_info(&self, out: &mut Vec<u8>, obj_info: &String) -> (result: Result<
        usize,
        WriteError,
    >)
        ensures
            final(out)@ == old(out)@ + obj_info_line(obj_info@, self.newline()),
            result matches Ok(n) && n == obj_info_line(obj_info@, self.newline()).len(),
    {
        let start = out.len();
        let ghost before = out@;
        push_text(out, "obj_info ");
        push_text(out, obj_info.as_str());
        self.write_new_line(out);
        assert(out@ =~= before + obj_info_line(obj_info@, self.newline()));
        Ok(out.len() - start)
    }

    /// Writes the line `element <name> <count>`.
    pub fn write_line_element_definition(&self, out: &mut Vec<u8>, element: &ElementDef) -> (result:
        Result<usize, WriteError>)
        ensures
            final(out)@ == old(out)@ + element_line(element@, self.newline()),
            result matches Ok(n) && n == element_line(element@, self.newline()).len(),
    {
        let start = out.len();
        let ghost before = out@;
        push_text(out, "element ");
        push_text(out, element.name.as_str());
        push_text(out, " ");
        push_decimal(out, element.count as u64);
        self.write_new_line(out);
        assert(out@ =~= before + element_line(element@, self.newline()));
        Ok(out.len() - start)
    }

    /// Writes the type tokens of a property line.
    pub fn write_property_type(
        &self,
        out: &mut Vec<u8>,
        data_type: &PropertyType,
    ) -> (result: Result<usize, WriteError>)
        ensures
            final(out)@ == old(out)@ + type_tokens(*data_type).bytes,
            type_tokens(*data_type).reported_by(result),
        decreases data_type,
    {
        let start = out.len();
        let ghost before = out@;
        match data_type {
            PropertyType::Char => push_text(out, "char"),
            PropertyType::UChar => push_text(out, "uchar"),
            PropertyType::Short => push_text(out, "short"),
            PropertyType::UShort => push_text(out, "ushort"),
            PropertyType::Int => push_text(out, "int"),
            PropertyType::UInt => push_text(out, "uint"),
            PropertyType::Float => push_text(out, "float"),
            PropertyType::Double => push_text(out, "double"),
            PropertyType::List(index_type, item_type) => {
                push_text(out, "list ");
                match &**index_type {
                    PropertyType::Float => {
                        return Err(
                            WriteError::InvalidListIndexType {
                                found: IndexKind::Float,
                                stage: Stage::Header,
                            },
                        );
                    },
                    PropertyType::Double => {
                        return Err(
                            WriteError::InvalidListIndexType {
                                found: IndexKind::Double,
                                stage: Stage::Header,
                            },
                        );
                    },
                    PropertyType::List(_, _) => {
                        return Err(
                            WriteError::InvalidListIndexType {
                                found: IndexKind::List,
                                stage: Stage::Header,
                            },
                        );
                    },
                    _ => {},
                }
                let _ = self.write_property_type(out, index_type);
                push_text(out, " ");
                let ghost head = out@;
                assert(head =~= before + (text("list "@) + text(scalar_keyword(**index_type))
                    + text(" "@)));
                match self.write_property_type(out, item_type) {
                    Err(e) => {
                        assert(out@ =~= before + type_tokens(*data_type).bytes);
                        return Err(e);
                    },
                    Ok(_) => {
                        assert(out@ =~= before + type_tokens(*data_type).bytes);
                    },
                }
            },
        }
        Ok(out.len() - start)
    }

    /// Writes the line `property <type> <name>`.
    pub fn write_line_property_definition(
        &self,
        out: &mut Vec<u8>,
        property: &PropertyDef,
    ) -> (result: Result<usize, WriteError>)
        ensures
            final(out)@ == old(out)@ + property_line(property@, self.newline()).bytes,
            property_line(property@, self.newline()).reported_by(result),
    {
        let start = out.len();
        let ghost before = out@;
        push_text(out, "property ");
        match self.write_property_type(out, &property.data_type) {
            Err(e) => {
                assert(out@ =~= before + property_line(property@, self.newline()).bytes);
                return Err(e);
            },
            Ok(_) => {},
        }
        push_text(out, " ");
        push_text(out, property.name.as_str());
        self.write_new_line(out);
        assert(out@ =~= before + property_line(property@, self.newline()).bytes);
        Ok(out.len() - start)
    }

    /// Writes the element line and the lines of all its properties.
    pub fn write_element_definition(&self, out: &mut Vec<u8>, element: &ElementDef) -> (result:
        Result<usize, WriteError>)
        ensures
            final(out)@ == old(out)@ + element_block(element@, self.newline()).bytes,
            element_block(element@, self.newline()).reported_by(result),
    {
        let start = out.len();
        let ghost before = out@;
        let ghost head = before + element_line(element@, self.newline());
        let ghost lines = property_lines(element@.properties, self.newline());
        let _ = self.write_line_element_definition(out, element);
        let count = element.properties.len();
        let mut i: usize = 0;
        while i < count
            invariant
                i <= count,
                count == element.properties.entries().len(),
                count == lines.len(),
                before == old(out)@,
                head == before + element_line(element@, self.newline()),
                lines == property_lines(element@.properties, self.newline()),
                Emitted::first(lines, i as nat).fault is None,
                out@ == head + Emitted::first(lines, i as nat).bytes,
            decreases count - i,
        {
            let (_, property) = element.properties.entry(i);
            assert(lines[i as int] == property_line(property@, self.newline()));
            let written = self.write_line_property_definition(out, property);
            proof {
                lemma_next_part(lines, i as nat, head, out@);
            }
            match written {
                Err(e) => {
                    assert(out@ =~= before + element_block(element@, self.newline()).bytes);
                    return Err(e);
                },
                Ok(_) => {},
            }
            i = i + 1;
        }
        assert(out@ =~= before + element_block(element@, self.newline()).bytes);
        Ok(out.len() - start)
    }

    /// Writes the line `end_header`.
    pub fn write_line_end_header(&mut self, out: &mut Vec<u8>) -> (result: Result<
        usize,
        WriteError,
    >)
        ensures
            *final(self) == *old(self),
            final(out)@ == old(out)@ + end_header_line(old(self).newline()),
            result matches Ok(n) && n == end_header_line(old(self).newline()).len(),
    {
        let start = out.len();
        let ghost before = out@;
        push_text(out, "end_header");
        self.write_new_line(out);
        assert(out@ =~= before + end_header_line(self.newline()));
        Ok(out.len() - start)
    }

    /// Writes the whole header: the magic line, the format line, the
    /// comments, the object information, the definition of every element
    /// in order, and the closing line. A header whose comments, object
    /// information and names hold no line break consists of lines that
    /// end with this writer's terminator, and holds no other line break.
    pub fn write_header(&mut self, out: &mut Vec<u8>, header: &Header) -> (result: Result<
        usize,
        WriteError,
    >)
        ensures
            *final(self) == *old(self),
            final(out)@ == old(out)@ + header_bytes(header@, old(self).newline()).bytes,
            header_bytes(header@, old(self).newline()).reported_by(result),
            plain_header(header@) && result is Ok ==> lines_only(
                header_bytes(header@, old(self).newline()).bytes,
                old(self).newline(),
            ),
    {
        let start = out.len();
        let ghost before = out@;
        let ghost newline = self.newline();
        let _ = self.write_line_magic_number(out);
        let _ = self.write_line_format(out, &header.encoding, &header.version);
        let ghost top = magic_line(newline) + format_line(header.encoding, header.version, newline);
        assert(out@ =~= before + top);

        let comments = header.comments.len();
        let mut i: usize = 0;
        while i < comments
            invariant
                i <= comments,
                comments == header.comments@.len(),
                newline == self.newline(),
                out@ == before + top + comment_lines(header@.comments, i as nat, newline),
            decreases comments - i,
        {
            let _ = self.write_line_comment(out, &header.comments[i]);
            assert(out@ =~= before + top + comment_lines(
                header@.comments,
                (i + 1) as nat,
                newline,
            ));
            i = i + 1;
        }
        let ghost noted = top + comment_lines(header@.comments, comments as nat, newline);
        assert(out@ =~= before + noted);

        let obj_infos = header.obj_infos.len();
        let mut i: usize = 0;
        while i < obj_infos
            invariant
                i <= obj_infos,
                obj_infos == header.obj_infos@.len(),
                newline == self.newline(),
                out@ == before + noted + obj_info_lines(header@.obj_infos, i as nat, newline),
            decreases obj_infos - i,
        {
            let _ = self.write_line_obj_info(out, &header.obj_infos[i]);
            assert(out@ =~= before + noted + obj_info_lines(
                header@.obj_infos,
                (i + 1) as nat,
                newline,
            ));
            i = i + 1;
        }
        let ghost head = before + preamble(header@, newline);
        assert(out@ =~= head);

        let ghost blocks = element_blocks(header@.elements, newline);
        let count = header.elements.len();
        let mut i: usize = 0;
        while i < count
            invariant
                i <= count,
                count == header.elements.entries().len(),
                count == blocks.len(),
                newline == self.newline(),
                before == old(out)@,
                head == before + preamble(header@, newline),
                blocks == element_blocks(header@.elements, newline),
                forall|k: int|
                    0 <= k < count ==> #[trigger] blocks[k] == element_block(
                        header.elements.entries()[k].1@,
                        newline,
                    ),
                Emitted::first(blocks, i as nat).fault is None,
                out@ == head + Emitted::first(blocks, i as nat).bytes,
            decreases count - i,
        {
            let (_, element) = header.elements.entry(i);
            assert(blocks[i as int] == element_block(element@, newline));
            let written = self.write_element_definition(out, element);
            proof {
                lemma_next_part(blocks, i as nat, head, out@);
            }
            match written {
                Err(e) => {
                    assert(out@ =~= before + header_bytes(header@, newline).bytes);
                    return Err(e);
                },
                Ok(_) => {},
            }
            i = i + 1;
        }
        let _ = self.write_line_end_header(out);
        proof {
            assert(out@ =~= before + header_bytes(header@, newline).bytes);
            if plain_header(header@) {
                law_header_lines(header@, self.new_line());
            }
        }
        Ok(out.len() - start)
    }
    /// Writes a value as text.
    pub fn write_ascii_property(
        &self,
        out: &mut Vec<u8>,
        data_element: &Property,
    ) -> (result: Result<usize, WriteError>)
        ensures
            final(out)@ == old(out)@ + ascii_value(data_element@),
            result matches Ok(n) && n == ascii_value(data_element@).len(),
            plain_value(data_element@),
        decreases data_element,
    {
        let start = out.len();
        let ghost before = out@;
        match data_element {
            Property::Char(v) => push_signed_decimal(out, *v as i64),
            Property::UChar(v) => push_decimal(out, *v as u64),
            Property::Short(v) => push_signed_decimal(out, *v as i64),
            Property::UShort(v) => push_decimal(out, *v as u64),
            Property::Int(v) => push_signed_decimal(out, *v as i64),
            Property::UInt(v) => push_decimal(out, *v as u64),
            Property::Float(v) => {
                let digits = v.text();
                push_text(out, digits.as_str());
            },
            Property::Double(v) => {
                let digits = v.text();
                push_text(out, digits.as_str());
            },
            Property::List(items) => {
                let ghost values = data_element@->List_0;
                proof {
                    lemma_values_of(items@, items@.len());
                }
                push_decimal(out, items.len() as u64);
                let ghost head = out@;
                let mut i: usize = 0;
                while i < items.len()
                    invariant
                        *data_element is List,
                        data_element->List_0 == *items,
                        i <= items@.len(),
                        values.len() == items@.len(),
                        forall|k: int| 0 <= k < items@.len() ==> #[trigger] values[k] == items@[k]@,
                        forall|k: int| 0 <= k < i ==> plain_value(#[trigger] values[k]),
                        out@ == head + ascii_items(values, i as nat),
                    decreases items@.len() - i,
                {
                    assert(decreases_to!(*data_element => data_element->List_0[i as int]));
                    push_text(out, " ");
                    let _ = self.write_ascii_property(out, &items[i]);
                    assert(plain_value(values[i as int]));
                    assert(out@ =~= head + ascii_items(values, (i + 1) as nat));
                    i = i + 1;
                }
                assert(out@ =~= before + ascii_value(data_element@));
            },
        }
        Ok(out.len() - start)
    }

    /// Writes the count that precedes the items of a binary list.
    fn write_binary_count(
        &self,
        out: &mut Vec<u8>,
        length: usize,
        index_type: &PropertyType,
        order: Endian,
    ) -> (result: Result<(), WriteError>)
        ensures
            match result {
                Ok(_) => invalid_index(*index_type) is None && final(out)@ == old(out)@
                    + count_field(length as nat, *index_type, order),
                Err(e) => {
                    &&& final(out)@ == old(out)@
                    &&& invalid_index(*index_type) matches Some(found)
                    &&& e@ == (Fault::InvalidListIndexType { found, stage: Stage::Payload })
                },
            },
    {
        proof {
            lemma_pow256();
        }
        let wide: u64 = length as u64;
        match index_type {
            PropertyType::Char => put_u8(out, (wide % 0x100) as u8, order),
            PropertyType::UChar => put_u8(out, (wide % 0x100) as u8, order),
            PropertyType::Short => put_u16(out, (wide % 0x1_0000) as u16, order),
            PropertyType::UShort => put_u16(out, (wide % 0x1_0000) as u16, order),
            PropertyType::Int => put_u32(out, (wide % 0x1_0000_0000) as u32, order),
            PropertyType::UInt => put_u32(out, (wide % 0x1_0000_0000) as u32, order),
            PropertyType::Float => {
                return Err(
                    WriteError::InvalidListIndexType {
                        found: IndexKind::Float,
                        stage: Stage::Payload,
                    },
                );
            },
            PropertyType::Double => {
                return Err(
                    WriteError::InvalidListIndexType {
                        found: IndexKind::Double,
                        stage: Stage::Payload,
                    },
                );
            },
            PropertyType::List(_, _) => {
                return Err(
                    WriteError::InvalidListIndexType {
                        found: IndexKind::List,
                        stage: Stage::Payload,
                    },
                );
            },
        }
        Ok(())
    }

    /// Writes a value as a binary field against its declared type.
    pub fn write_binary_property(
        &self,
        out: &mut Vec<u8>,
        property: &Property,
        property_type: &PropertyType,
        order: Endian,
    ) -> (result: Result<usize, WriteError>)
        ensures
            final(out)@ == old(out)@ + binary_value(property@, *property_type, order).bytes,
            binary_value(property@, *property_type, order).reported_by(result),
        decreases property,
    {
        let start = out.len();
        let ghost before = out@;
        match property {
            Property::Char(v) => put_i8(out, *v, order),
            Property::UChar(v) => put_u8(out, *v, order),
            Property::Short(v) => put_i16(out, *v, order),
            Property::UShort(v) => put_u16(out, *v, order),
            Property::Int(v) => put_i32(out, *v, order),
            Property::UInt(v) => put_u32(out, *v, order),
            Property::Float(v) => put_u32(out, v.bits(), order),
            Property::Double(v) => put_u64(out, v.bits(), order),
            Property::List(items) => {
                let ghost values = property@->List_0;
                proof {
                    lemma_values_of(items@, items@.len());
                }
                let (index_type, item_type) = match property_type {
                    PropertyType::List(index_type, item_type) => (index_type, item_type),
                    _ => {
                        assert(out@ =~= before + Seq::<u8>::empty());
                        return Err(WriteError::ListTypeExpected);
                    },
                };
                match self.write_binary_count(out, items.len(), index_type, order) {
                    Err(e) => {
                        assert(out@ =~= before + Seq::<u8>::empty());
                        return Err(e);
                    },
                    Ok(_) => {},
                }
                let ghost head = out@;
                let mut i: usize = 0;
                while i < items.len()
                    invariant
                        *property is List,
                        property->List_0 == *items,
                        i <= items@.len(),
                        values.len() == items@.len(),
                        forall|k: int| 0 <= k < items@.len() ==> #[trigger] values[k] == items@[k]@,
                        binary_items(values, **item_type, order, i as nat).fault is None,
                        out@ == head + binary_items(values, **item_type, order, i as nat).bytes,
                        before == old(out)@,
                        head == before + count_field(values.len(), **index_type, order),
                        property@ == Value::List(values),
                        *property_type == PropertyType::List(*index_type, *item_type),
                        invalid_index(**index_type) is None,
                    decreases items@.len() - i,
                {
                    assert(decreases_to!(*property => property->List_0[i as int]));
                    let written = self.write_binary_property(out, &items[i], item_type, order);
                    let ghost next = binary_items(values, **item_type, order, (i + 1) as nat);
                    assert(out@ =~= head + next.bytes);
                    match written {
                        Err(e) => {
                            proof {
                                lemma_binary_items_stopped(
                                    values,
                                    **item_type,
                                    order,
                                    (i + 1) as nat,
                                    values.len(),
                                );
                                assert(out@ =~= before + binary_value(
                                    property@,
                                    *property_type,
                                    order,
                                ).bytes);
                            }
                            return Err(e);
                        },
                        Ok(_) => {},
                    }
                    i = i + 1;
                }
                assert(out@ =~= before + binary_value(property@, *property_type, order).bytes);
            },
        }
        Ok(out.len() - start)
    }
    /// Writes a canonical element as a line of text: its values in its
    /// own order, a space between neighbours, then the line terminator.
    pub fn write_ascii_row(&self, out: &mut Vec<u8>, element: &DefaultElement) -> (result: Result<
        usize,
        WriteError,
    >)
        ensures
            final(out)@ == old(out)@ + ascii_row(element@, self.newline()),
            result matches Ok(n) && n == ascii_row(element@, self.newline()).len(),
            lines_only(ascii_row(element@, self.newline()), self.newline()),
    {
        let start = out.len();
        let ghost before = out@;
        let count = element.len();
        let mut i: usize = 0;
        while i < count
            invariant
                i <= count,
                count == element.entries().len(),
                forall|k: int| 0 <= k < i ==> plain_value((#[trigger] element@[k]).1),
                out@ == before + ascii_fields(element@, i as nat),
            decreases count - i,
        {
            if i > 0 {
                push_text(out, " ");
            }
            let (_, value) = element.entry(i);
            let _ = self.write_ascii_property(out, value);
            assert(out@ =~= before + ascii_fields(element@, (i + 1) as nat));
            assert(plain_value(element@[i as int].1));
            i = i + 1;
        }
        proof {
            assert(plain_row(element@));
            law_ascii_row_line(element@, self.new_line());
        }
        self.write_new_line(out);
        assert(out@ =~= before + ascii_row(element@, self.newline()));
        Ok(out.len() - start)
    }

    /// Writes a canonical element as a binary row: for each property of
    /// the definition, in its order, the value the element holds under the
    /// property's key, against the declared type. A property without a
    /// value stops the write with `MissingProperty`; a list under an
    /// unfit declaration stops it as `binary_value` says.
    pub fn write_binary_row(
        &self,
        out: &mut Vec<u8>,
        element: &DefaultElement,
        element_def: &ElementDef,
        order: Endian,
    ) -> (result: Result<usize, WriteError>)
        ensures
            final(out)@ == old(out)@ + binary_row(element_def@, element@, order).bytes,
            binary_row(element_def@, element@, order).reported_by(result),
    {
        let start = out.len();
        let ghost before = out@;
        let ghost fields = binary_fields(element_def@.properties, element@, order);
        let count = element_def.properties.len();
        assert(out@ =~= before + Emitted::first(fields, 0).bytes);
        let mut i: usize = 0;
        while i < count
            invariant
                i <= count,
                count == element_def.properties.entries().len(),
                count == fields.len(),
                before == old(out)@,
                fields == binary_fields(element_def@.properties, element@, order),
                Emitted::first(fields, i as nat).fault is None,
                out@ == before + Emitted::first(fields, i as nat).bytes,
            decreases count - i,
        {
            let (key, property) = element_def.properties.entry(i);
            assert(fields[i as int] == binary_field(
                (key@, property@),
                element@,
                order,
            ));
            let written = match element.find(key) {
                Some(value) => self.write_binary_property(out, value, &property.data_type, order),
                None => Err(WriteError::MissingProperty(key.clone())),
            };
            proof {
                assert(out@ =~= before + Emitted::first(fields, i as nat).bytes
                    + fields[i as int].bytes);
                lemma_next_part(fields, i as nat, before, out@);
            }
            match written {
                Err(e) => {
                    return Err(e);
                },
                Ok(_) => {},
            }
            i = i + 1;
        }
        Ok(out.len() - start)
    }

    /// Writes a canonical element as a row in the given encoding.
    pub fn write_row(
        &self,
        out: &mut Vec<u8>,
        element: &DefaultElement,
        element_def: &ElementDef,
        encoding: Encoding,
    ) -> (result: Result<usize, WriteError>)
        ensures
            final(out)@ == old(out)@ + encoded_row(
                element@,
                element_def@,
                encoding,
                self.newline(),
            ).bytes,
            encoded_row(element@, element_def@, encoding, self.newline()).reported_by(result),
            encoding is Ascii ==> lines_only(
                encoded_row(element@, element_def@, encoding, self.newline()).bytes,
                self.newline(),
            ),
    {
        match encoding {
            Encoding::Ascii => self.write_ascii_row(out, element),
            Encoding::BinaryBigEndian => self.write_binary_row(
                out,
                element,
                element_def,
                Endian::Big,
            ),
            Encoding::BinaryLittleEndian => self.write_binary_row(
                out,
                element,
                element_def,
                Endian::Little,
            ),
        }
    }

    /// Writes the row of an element whose conversion has been made: the
    /// converted element in the given encoding, or, where the conversion
    /// failed, nothing, and the failure is handed on.
    pub fn write_converted(
        &self,
        out: &mut Vec<u8>,
        outcome: Result<DefaultElement, ConversionError>,
        element_def: &ElementDef,
        encoding: Encoding,
    ) -> (result: Result<usize, WriteError>)
        ensures
            final(out)@ == old(out)@ + converted_row(
                outcome_view(outcome),
                element_def@,
                encoding,
                self.newline(),
            ).bytes,
            converted_row(
                outcome_view(outcome),
                element_def@,
                encoding,
                self.newline(),
            ).reported_by(result),
            encoding is Ascii && result is Ok ==> lines_only(
                converted_row(outcome_view(outcome), element_def@, encoding, self.newline()).bytes,
                self.newline(),
            ),
    {
        match outcome {
            Ok(raw_element) => self.write_row(out, &raw_element, element_def, encoding),
            Err(e) => {
                assert(out@ =~= out@ + Seq::<u8>::empty());
                Err(WriteError::Conversion(e))
            },
        }
    }

    /// Converts one element and writes it as a line of text.
    pub fn write_ascii_element(
        &self,
        out: &mut Vec<u8>,
        element: &P,
        element_def: &ElementDef,
    ) -> (result: Result<usize, WriteError>)
        ensures
            final(out)@ == old(out)@ + converted_row(
                element.element_for(element_def@),
                element_def@,
                Encoding::Ascii,
                self.newline(),
            ).bytes,
            converted_row(
                element.element_for(element_def@),
                element_def@,
                Encoding::Ascii,
                self.newline(),
            ).reported_by(result),
            result is Ok ==> lines_only(
                converted_row(
                    element.element_for(element_def@),
                    element_def@,
                    Encoding::Ascii,
                    self.newline(),
                ).bytes,
                self.newline(),
            ),
    {
        let outcome = element.to_element(element_def);
        self.write_converted(out, outcome, element_def, Encoding::Ascii)
    }

    /// Converts one element and writes it as a big-endian binary row.
    pub fn write_big_endian_element(
        &self,
        out: &mut Vec<u8>,
        element: &P,
        element_def: &ElementDef,
    ) -> (result: Result<usize, WriteError>)
        ensures
            final(out)@ == old(out)@ + converted_row(
                element.element_for(element_def@),
                element_def@,
                Encoding::BinaryBigEndian,
                self.newline(),
            ).bytes,
            converted_row(
                element.element_for(element_def@),
                element_def@,
                Encoding::BinaryBigEndian,
                self.newline(),
            ).reported_by(result),
    {
        let outcome = element.to_element(element_def);
        self.write_converted(out, outcome, element_def, Encoding::BinaryBigEndian)
    }

    /// Converts one element and writes it as a little-endian binary row.
    pub fn write_little_endian_element(
        &self,
        out: &mut Vec<u8>,
        element: &P,
        element_def: &ElementDef,
    ) -> (result: Result<usize, WriteError>)
        ensures
            final(out)@ == old(out)@ + converted_row(
                element.element_for(element_def@),
                element_def@,
                Encoding::BinaryLittleEndian,
                self.newline(),
            ).bytes,
            converted_row(
                element.element_for(element_def@),
                element_def@,
                Encoding::BinaryLittleEndian,
                self.newline(),
            ).reported_by(result),
    {
        let outcome = element.to_element(element_def);
        self.write_converted(out, outcome, element_def, Encoding::BinaryLittleEndian)
    }

    /// Writes the rows of one element: each element of the list is
    /// converted and written in the encoding that the header names.
    pub fn write_payload_of_element(
        &mut self,
        out: &mut Vec<u8>,
        element_list: &Vec<P>,
        element_def: &ElementDef,
        header: &Header,
    ) -> (result: Result<usize, WriteError>)
        ensures
            *final(self) == *old(self),
            final(out)@ == old(out)@ + Emitted::all(
                rows(element_list@, element_def@, header.encoding, old(self).newline()),
            ).bytes,
            Emitted::all(
                rows(element_list@, element_def@, header.encoding, old(self).newline()),
            ).reported_by(result),
            header.encoding is Ascii && result is Ok ==> lines_only(
                Emitted::all(
                    rows(element_list@, element_def@, header.encoding, old(self).newline()),
                ).bytes,
                old(self).newline(),
            ),
    {
        let start = out.len();
        let ghost before = out@;
        let ghost parts = rows(element_list@, element_def@, header.encoding, self.newline());
        let count = element_list.len();
        proof {
            assert(out@ =~= before + Emitted::first(parts, 0).bytes);
            lemma_no_lines(self.newline());
        }
        let mut i: usize = 0;
        while i < count
            invariant
                i <= count,
                count == element_list@.len(),
                count == parts.len(),
                before == old(out)@,
                *self == *old(self),
                parts == rows(element_list@, element_def@, header.encoding, self.newline()),
                Emitted::first(parts, i as nat).fault is None,
                out@ == before + Emitted::first(parts, i as nat).bytes,
                header.encoding is Ascii ==> lines_only(
                    Emitted::first(parts, i as nat).bytes,
                    self.newline(),
                ),
            decreases count - i,
        {
            let outcome = element_list[i].to_element(element_def);
            let written = self.write_converted(out, outcome, element_def, header.encoding);
            proof {
                lemma_next_part(parts, i as nat, before, out@);
                if header.encoding is Ascii && written is Ok {
                    lemma_lines_concat(
                        Emitted::first(parts, i as nat).bytes,
                        parts[i as int].bytes,
                        self.newline(),
                    );
                }
            }
            match written {
                Err(e) => {
                    return Err(e);
                },
                Ok(_) => {},
            }
            i = i + 1;
        }
        Ok(out.len() - start)
    }

    /// Writes the payload: for each element that the header declares, in
    /// the header's order, the rows that the payload holds under the
    /// element's key. A declared element without rows in the payload stops
    /// the write with `MissingElement`.
    pub fn write_payload(
        &mut self,
        out: &mut Vec<u8>,
        payload: &Payload<P>,
        header: &Header,
    ) -> (result: Result<usize, WriteError>)
        ensures
            *final(self) == *old(self),
            final(out)@ == old(out)@ + payload_bytes(payload@, header@, old(self).newline()).bytes,
            payload_bytes(payload@, header@, old(self).newline()).reported_by(result),
            header.encoding is Ascii && result is Ok ==> lines_only(
                payload_bytes(payload@, header@, old(self).newline()).bytes,
                old(self).newline(),
            ),
    {
        let start = out.len();
        let ghost before = out@;
        let ghost parts = payload_blocks(payload@, header@, self.newline());
        let count = header.elements.len();
        proof {
            assert(out@ =~= before + Emitted::first(parts, 0).bytes);
            lemma_no_lines(self.newline());
        }
        let mut i: usize = 0;
        while i < count
            invariant
                i <= count,
                count == header.elements.entries().len(),
                count == parts.len(),
                before == old(out)@,
                *self == *old(self),
                parts == payload_blocks(payload@, header@, self.newline()),
                Emitted::first(parts, i as nat).fault is None,
                out@ == before + Emitted::first(parts, i as nat).bytes,
                header.encoding is Ascii ==> lines_only(
                    Emitted::first(parts, i as nat).bytes,
                    self.newline(),
                ),
            decreases count - i,
        {
            let (key, element_def) = header.elements.entry(i);
            assert(parts[i as int] == element_rows(
                payload@,
                (key@, element_def@),
                header.encoding,
                self.newline(),
            ));
            let written = match payload.find(key) {
                Some(element_list) => self.write_payload_of_element(
                    out,
                    element_list,
                    element_def,
                    header,
                ),
                None => Err(WriteError::MissingElement(key.clone())),
            };
            proof {
                assert(out@ =~= before + Emitted::first(parts, i as nat).bytes
                    + parts[i as int].bytes);
                lemma_next_part(parts, i as nat, before, out@);
                if header.encoding is Ascii && written is Ok {
                    lemma_lines_concat(
                        Emitted::first(parts, i as nat).bytes,
                        parts[i as int].bytes,
                        self.newline(),
                    );
                }
            }
            match written {
                Err(e) => {
                    return Err(e);
                },
                Ok(_) => {},
            }
            i = i + 1;
        }
        Ok(out.len() - start)
    }

    /// Writes a whole document: the header, then the payload. An ascii
    /// document whose header holds no line break in its comments, object
    /// information and names consists of lines that end with this
    /// writer's terminator, and holds no other line break.
    pub fn write_ply(&mut self, out: &mut Vec<u8>, ply: &Ply<P>) -> (result: Result<
        usize,
        WriteError,
    >)
        ensures
            *final(self) == *old(self),
            final(out)@ == old(out)@ + document_bytes(
                ply.header@,
                ply.payload@,
                old(self).newline(),
            ).bytes,
            document_bytes(ply.header@, ply.payload@, old(self).newline()).reported_by(result),
            ply.header.encoding is Ascii && plain_header(ply.header@) && result is Ok
                ==> lines_only(
                document_bytes(ply.header@, ply.payload@, old(self).newline()).bytes,
                old(self).newline(),
            ),
    {
        let start = out.len();
        let ghost before = out@;
        match self.write_header(out, &ply.header) {
            Err(e) => {
                return Err(e);
            },
            Ok(_) => {},
        }
        match self.write_payload(out, &ply.payload, &ply.header) {
            Err(e) => {
                assert(out@ =~= before + document_bytes(
                    ply.header@,
                    ply.payload@,
                    self.newline(),
                ).bytes);
                return Err(e);
            },
            Ok(_) => {},
        }
        proof {
            assert(out@ =~= before + document_bytes(
                ply.header@,
                ply.payload@,
                self.newline(),
            ).bytes);
            if ply.header.encoding is Ascii && plain_header(ply.header@) {
                law_header_lines(ply.header@, self.new_line());
                lemma_lines_concat(
                    header_bytes(ply.header@, self.newline()).bytes,
                    payload_bytes(ply.payload@, ply.header@, self.newline()).bytes,
                    self.newline(),
                );
            }
        }
        Ok(out.len() - start)
    }
}

} // verus!
