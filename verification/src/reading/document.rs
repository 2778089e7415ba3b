//! Reading a whole file back: the header, then the payload as the header
//! says it is laid out.

use crate::convert::ToElement;
use crate::laws::valid_header;
use crate::layout::{document_bytes, header_bytes, payload_bytes};
use crate::lines::plain_header;
use crate::ply::HeaderView;
use crate::reading::ascii::{payload_aligned, payload_items, Item};
use crate::reading::binary::{byte_order, payload_content, payload_fits, Content};
use crate::reading::header::{heading_of, law_header_round_trip, read_header, Block, Heading};
use crate::reading::header_line::header_token_names;
use crate::reading::shape::{shapes_of, Shape};
use crate::writer::NewLine;
use vstd::prelude::*;

verus! {

/// What a payload says: for each element the values of its rows, read
/// from text or from binary fields.
pub enum Rows {
    Text(Seq<Seq<Seq<Item>>>),
    Binary(Seq<Seq<Seq<Content>>>),
}

/// The shape that a header read back gives the rows of an element.
pub open spec fn block_shape(block: Block) -> Shape {
    Shape {
        count: block.count,
        types: Seq::new(block.properties.len(), |j: int| block.properties[j].0),
    }
}

/// The shapes of the elements of a header read back.
pub open spec fn heading_shapes(heading: Heading) -> Seq<Shape> {
    Seq::new(heading.elements.len(), |i: int| block_shape(heading.elements[i]))
}

/// Reads a file from the front of `input`: the header, then the rows of
/// each element that the header declares, in the encoding that it names.
pub open spec fn read_document(input: Seq<u8>, newline: Seq<u8>) -> Option<
    (Heading, Rows, Seq<u8>),
> {
    match read_header(input, newline) {
        None => None,
        Some((heading, rest)) => match heading.format {
            None => None,
            Some((encoding, _, _)) => {
                let shapes = heading_shapes(heading);
                if encoding is Ascii {
                    match crate::reading::ascii::read_payload(
                        rest,
                        shapes,
                        newline,
                        shapes.len(),
                    ) {
                        Some((rows, left)) => Some((heading, Rows::Text(rows), left)),
                        None => None,
                    }
                } else {
                    match crate::reading::binary::read_payload(
                        rest,
                        shapes,
                        byte_order(encoding),
                        shapes.len(),
                    ) {
                        Some((rows, left)) => Some((heading, Rows::Binary(rows), left)),
                        None => None,
                    }
                }
            },
        },
    }
}

/// What the payload of a document says, in the encoding of its header.
pub open spec fn rows_of<P: ToElement<P>>(
    payload: Seq<(Seq<char>, Seq<P>)>,
    header: HeaderView,
) -> Rows {
    if header.encoding is Ascii {
        Rows::Text(payload_items(payload, header))
    } else {
        Rows::Binary(payload_content(payload, header))
    }
}

/// Whether a document can be read back: the declared types are valid;
/// comments, object information and names hold no line break; names are
/// tokens; the payload holds as many elements of each kind as declared;
/// and each element holds well-formed values of the declared types, in an
/// ascii document in the order of the definition.
pub open spec fn readable<P: ToElement<P>>(
    header: HeaderView,
    payload: Seq<(Seq<char>, Seq<P>)>,
) -> bool {
    &&& valid_header(header)
    &&& plain_header(header)
    &&& header_token_names(header)
    &&& if header.encoding is Ascii {
        payload_aligned(payload, header)
    } else {
        payload_fits(payload, header)
    }
}

/// The shapes that a header read back gives are those that the header
/// gives.
pub proof fn lemma_heading_shapes(header: HeaderView)
    ensures
        heading_shapes(heading_of(header)) == shapes_of(header.elements),
{
    let read = heading_shapes(heading_of(header));
    let given = shapes_of(header.elements);
    assert forall|i: int| 0 <= i < read.len() implies #[trigger] read[i] == given[i] by {
        assert(read[i].types =~= given[i].types);
    }
    assert(read =~= given);
}

/// In all three encodings and for every newline policy: a readable
/// document is written in full, and from the file, whatever follows it, a
/// reader reads back what the header states and the values of every row,
/// and what follows the file is left.
pub proof fn law_document_round_trip<P: ToElement<P>>(
    header: HeaderView,
    payload: Seq<(Seq<char>, Seq<P>)>,
    policy: NewLine,
    rest: Seq<u8>,
)
    requires
        readable(header, payload),
    ensures
        document_bytes(header, payload, policy.bytes()).fault is None,
        read_document(document_bytes(header, payload, policy.bytes()).bytes + rest, policy.bytes())
            == Some((heading_of(header), rows_of(payload, header), rest)),
{
    let newline = policy.bytes();
    let head = header_bytes(header, newline).bytes;
    let body = payload_bytes(payload, header, newline).bytes;
    if header.encoding is Ascii {
        crate::reading::ascii::law_payload_round_trip(payload, header, policy, rest);
    } else {
        crate::reading::binary::law_payload_round_trip(payload, header, newline, rest);
    }
    law_header_round_trip(header, policy, body + rest);
    lemma_heading_shapes(header);
    assert(document_bytes(header, payload, newline).bytes + rest =~= head + (body + rest));
}

} // verus!
