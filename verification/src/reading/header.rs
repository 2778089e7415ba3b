//! A reader of headers, and the law that it reads back what the writer
//! wrote.

use crate::laws::valid_header;
use crate::layout::{end_header_body, header_bytes, text};
use crate::lines::plain_header;
use crate::ply::{ElementDefView, Encoding, HeaderView, PropertyType};
use crate::reading::header_line::{
    block_lines_of, blocks_lines_of, comment_lines_of, header_lines_of, header_token_names,
    law_header_lines_read, obj_info_lines_of, read_header_line, Line,
};
use crate::reading::header_lines::{header_bodies, law_header_lines_read_back, read_lines};
use crate::writer::NewLine;
use vstd::prelude::*;

verus! {

/// What a header states of one element: name, count, and the type and
/// name of each property.
pub struct Block {
    pub name: Seq<u8>,
    pub count: nat,
    pub properties: Seq<(PropertyType, Seq<u8>)>,
}

/// What a header states: encoding and version, comments, object
/// information and elements, each text by its bytes.
pub struct Heading {
    pub format: Option<(Encoding, nat, nat)>,
    pub comments: Seq<Seq<u8>>,
    pub obj_infos: Seq<Seq<u8>>,
    pub elements: Seq<Block>,
}

/// What the header states of an element.
pub open spec fn block_of(element: ElementDefView) -> Block {
    Block {
        name: text(element.name),
        count: element.count,
        properties: Seq::new(
            element.properties.len(),
            |j: int| (element.properties[j].1.data_type, text(element.properties[j].1.name)),
        ),
    }
}

/// What a header states.
pub open spec fn heading_of(header: HeaderView) -> Heading {
    Heading {
        format: Some(
            (header.encoding, header.version.major as nat, header.version.minor as nat),
        ),
        comments: Seq::new(header.comments.len(), |i: int| text(header.comments[i])),
        obj_infos: Seq::new(header.obj_infos.len(), |i: int| text(header.obj_infos[i])),
        elements: Seq::new(header.elements.len(), |i: int| block_of(header.elements[i].1)),
    }
}

/// A heading that states nothing yet.
pub open spec fn blank() -> Heading {
    Heading {
        format: None,
        comments: Seq::empty(),
        obj_infos: Seq::empty(),
        elements: Seq::empty(),
    }
}

/// A heading with what one more line states: a format line sets the
/// format, a comment or an object information is added to its list, an
/// element line opens an element, and a property line adds a property to
/// the element opened last.
pub open spec fn with_line(heading: Heading, line: Line) -> Heading {
    match line {
        Line::Magic => heading,
        Line::End => heading,
        Line::Format(encoding, major, minor) => Heading {
            format: Some((encoding, major, minor)),
            ..heading
        },
        Line::Comment(comment) => Heading { comments: heading.comments.push(comment), ..heading },
        Line::ObjInfo(obj_info) => Heading {
            obj_infos: heading.obj_infos.push(obj_info),
            ..heading
        },
        Line::Element(name, count) => Heading {
            elements: heading.elements.push(Block { name, count, properties: Seq::empty() }),
            ..heading
        },
        Line::Property(data_type, name) => if heading.elements.len() == 0 {
            heading
        } else {
            let last = heading.elements.last();
            Heading {
                elements: heading.elements.drop_last().push(
                    Block { properties: last.properties.push((data_type, name)), ..last },
                ),
                ..heading
            }
        },
    }
}

/// A heading with what lines state, taken in order.
pub open spec fn gather(start: Heading, lines: Seq<Line>) -> Heading
    decreases lines.len(),
{
    if lines.len() == 0 {
        start
    } else {
        with_line(gather(start, lines.drop_last()), lines.last())
    }
}

/// What texts read as, line for line, if each reads as a header line.
pub open spec fn read_all(bodies: Seq<Seq<u8>>) -> Option<Seq<Line>> {
    if forall|i: int| 0 <= i < bodies.len() ==> read_header_line(#[trigger] bodies[i]) is Some {
        Some(Seq::new(bodies.len(), |i: int| read_header_line(bodies[i])->Some_0))
    } else {
        None
    }
}

/// Reads a header from the front of `input`: its lines up to the closing
/// line, what each states, and all of it gathered.
pub open spec fn read_header(input: Seq<u8>, newline: Seq<u8>) -> Option<(Heading, Seq<u8>)> {
    match read_lines(input, newline, end_header_body()) {
        None => None,
        Some((bodies, rest)) => match read_all(bodies) {
            None => None,
            Some(lines) => Some((gather(blank(), lines), rest)),
        },
    }
}

/// Gathering one line is taking what it states.
pub proof fn lemma_gather_one(start: Heading, line: Line)
    ensures
        gather(start, seq![line]) == with_line(start, line),
{
    let lines = seq![line];
    assert(lines.drop_last() =~= Seq::<Line>::empty());
    assert(gather(start, Seq::<Line>::empty()) == start);
    assert(gather(start, lines) == with_line(gather(start, lines.drop_last()), lines.last()));
}

/// Gathering over a run of lines is gathering over its first part, then
/// over the rest.
pub proof fn lemma_gather_concat(start: Heading, first: Seq<Line>, second: Seq<Line>)
    ensures
        gather(start, first + second) == gather(gather(start, first), second),
    decreases second.len(),
{
    if second.len() == 0 {
        assert(first + second =~= first);
    } else {
        lemma_gather_concat(start, first, second.drop_last());
        assert((first + second).drop_last() =~= first + second.drop_last());
        assert((first + second).last() == second.last());
    }
}

/// Gathering the first `n` comment lines adds the first `n` comments.
pub proof fn lemma_gather_comments(start: Heading, comments: Seq<Seq<char>>, n: nat)
    requires
        n <= comments.len(),
    ensures
        gather(start, comment_lines_of(comments).subrange(0, n as int)) == (Heading {
            comments: start.comments + Seq::new(n, |i: int| text(comments[i])),
            ..start
        }),
    decreases n,
{
    let lines = comment_lines_of(comments).subrange(0, n as int);
    if n == 0 {
        assert(start.comments + Seq::new(n, |i: int| text(comments[i])) =~= start.comments);
    } else {
        lemma_gather_comments(start, comments, (n - 1) as nat);
        assert(lines.drop_last() =~= comment_lines_of(comments).subrange(0, n - 1));
        assert((start.comments + Seq::new((n - 1) as nat, |i: int| text(comments[i]))).push(
            text(comments[n - 1]),
        ) =~= start.comments + Seq::new(n, |i: int| text(comments[i])));
    }
}

/// Gathering the first `n` object information lines adds the first `n`
/// object informations.
pub proof fn lemma_gather_obj_infos(start: Heading, obj_infos: Seq<Seq<char>>, n: nat)
    requires
        n <= obj_infos.len(),
    ensures
        gather(start, obj_info_lines_of(obj_infos).subrange(0, n as int)) == (Heading {
            obj_infos: start.obj_infos + Seq::new(n, |i: int| text(obj_infos[i])),
            ..start
        }),
    decreases n,
{
    let lines = obj_info_lines_of(obj_infos).subrange(0, n as int);
    if n == 0 {
        assert(start.obj_infos + Seq::new(n, |i: int| text(obj_infos[i])) =~= start.obj_infos);
    } else {
        lemma_gather_obj_infos(start, obj_infos, (n - 1) as nat);
        assert(lines.drop_last() =~= obj_info_lines_of(obj_infos).subrange(0, n - 1));
        assert((start.obj_infos + Seq::new((n - 1) as nat, |i: int| text(obj_infos[i]))).push(
            text(obj_infos[n - 1]),
        ) =~= start.obj_infos + Seq::new(n, |i: int| text(obj_infos[i])));
    }
}

/// Gathering the element line and the first `n` property lines of a block
/// opens the element and adds its first `n` properties.
pub proof fn lemma_gather_block_lines(start: Heading, element: ElementDefView, n: nat)
    requires
        n <= element.properties.len(),
    ensures
        gather(start, block_lines_of(element).subrange(0, (n + 1) as int)) == (Heading {
            elements: start.elements.push(
                Block {
                    name: text(element.name),
                    count: element.count,
                    properties: block_of(element).properties.subrange(0, n as int),
                },
            ),
            ..start
        }),
    decreases n,
{
    let lines = block_lines_of(element).subrange(0, (n + 1) as int);
    let properties = block_of(element).properties;
    if n == 0 {
        assert(lines =~= seq![Line::Element(text(element.name), element.count)]);
        lemma_gather_one(start, Line::Element(text(element.name), element.count));
        assert(properties.subrange(0, 0) =~= Seq::<(PropertyType, Seq<u8>)>::empty());
    } else {
        lemma_gather_block_lines(start, element, (n - 1) as nat);
        assert(lines.drop_last() =~= block_lines_of(element).subrange(0, n as int));
        let before = gather(start, lines.drop_last());
        assert(before.elements.drop_last() =~= start.elements);
        assert(properties.subrange(0, n as int) =~= properties.subrange(0, n - 1).push(
            properties[n - 1],
        ));
    }
}

/// Gathering the lines of a block adds the element.
pub proof fn lemma_gather_block(start: Heading, element: ElementDefView)
    ensures
        gather(start, block_lines_of(element)) == (Heading {
            elements: start.elements.push(block_of(element)),
            ..start
        }),
{
    let lines = block_lines_of(element);
    let properties = block_of(element).properties;
    lemma_gather_block_lines(start, element, element.properties.len());
    assert(lines.subrange(0, (element.properties.len() + 1) as int) =~= lines);
    assert(properties.subrange(0, element.properties.len() as int) =~= properties);
}

/// Gathering the lines of the first `n` blocks adds the first `n`
/// elements.
pub proof fn lemma_gather_blocks(
    start: Heading,
    elements: Seq<(Seq<char>, ElementDefView)>,
    n: nat,
)
    requires
        n <= elements.len(),
    ensures
        gather(start, blocks_lines_of(elements, n)) == (Heading {
            elements: start.elements + Seq::new(n, |i: int| block_of(elements[i].1)),
            ..start
        }),
    decreases n,
{
    if n == 0 {
        assert(start.elements + Seq::new(n, |i: int| block_of(elements[i].1)) =~= start.elements);
    } else {
        let before = blocks_lines_of(elements, (n - 1) as nat);
        lemma_gather_blocks(start, elements, (n - 1) as nat);
        lemma_gather_concat(start, before, block_lines_of(elements[n - 1].1));
        lemma_gather_block(gather(start, before), elements[n - 1].1);
        assert((start.elements + Seq::new((n - 1) as nat, |i: int| block_of(elements[i].1))).push(
            block_of(elements[n - 1].1),
        ) =~= start.elements + Seq::new(n, |i: int| block_of(elements[i].1)));
    }
}

/// Gathering what the lines of a header state gives what the header
/// states.
pub proof fn lemma_gather_header(header: HeaderView)
    ensures
        gather(blank(), header_lines_of(header)) == heading_of(header),
{
    let format = Line::Format(
        header.encoding,
        header.version.major as nat,
        header.version.minor as nat,
    );
    let top = seq![Line::Magic, format];
    let comments = comment_lines_of(header.comments);
    let obj_infos = obj_info_lines_of(header.obj_infos);
    let blocks = blocks_lines_of(header.elements, header.elements.len());
    let end = seq![Line::End];
    let after_top = gather(blank(), top);
    assert(after_top == Heading {
        format: Some(
            (header.encoding, header.version.major as nat, header.version.minor as nat),
        ),
        ..blank()
    }) by {
        assert(top =~= seq![Line::Magic] + seq![format]);
        lemma_gather_concat(blank(), seq![Line::Magic], seq![format]);
        lemma_gather_one(blank(), Line::Magic);
        lemma_gather_one(blank(), format);
    }
    lemma_gather_comments(after_top, header.comments, header.comments.len());
    assert(comments.subrange(0, comments.len() as int) =~= comments);
    let after_comments = gather(after_top, comments);
    lemma_gather_obj_infos(after_comments, header.obj_infos, header.obj_infos.len());
    assert(obj_infos.subrange(0, obj_infos.len() as int) =~= obj_infos);
    let after_obj_infos = gather(after_comments, obj_infos);
    lemma_gather_blocks(after_obj_infos, header.elements, header.elements.len());
    let after_blocks = gather(after_obj_infos, blocks);
    lemma_gather_one(after_blocks, Line::End);
    lemma_gather_concat(blank(), top, comments);
    lemma_gather_concat(blank(), top + comments, obj_infos);
    lemma_gather_concat(blank(), top + comments + obj_infos, blocks);
    lemma_gather_concat(blank(), top + comments + obj_infos + blocks, end);
    assert(after_blocks.comments =~= heading_of(header).comments);
    assert(after_blocks.obj_infos =~= heading_of(header).obj_infos);
    assert(after_blocks.elements =~= heading_of(header).elements);
}

/// For every newline policy: from the header of a document, whatever
/// follows it, a reader reads back what the header states, and what
/// follows the header is left, provided that the declared types are
/// valid, that comments, object information and names hold no line break,
/// and that names are tokens.
pub proof fn law_header_round_trip(header: HeaderView, policy: NewLine, rest: Seq<u8>)
    requires
        valid_header(header),
        plain_header(header),
        header_token_names(header),
    ensures
        header_bytes(header, policy.bytes()).fault is None,
        read_header(header_bytes(header, policy.bytes()).bytes + rest, policy.bytes()) == Some(
            (heading_of(header), rest),
        ),
{
    crate::reading::header_lines::law_header_is_lines(header, policy.bytes());
    law_header_lines_read_back(header, policy, rest);
    law_header_lines_read(header);
    lemma_gather_header(header);
    let bodies = header_bodies(header);
    let lines = header_lines_of(header);
    assert(read_all(bodies) == Some(lines)) by {
        assert forall|i: int| 0 <= i < bodies.len() implies read_header_line(
            #[trigger] bodies[i],
        ) is Some by {}
        assert(Seq::new(bodies.len(), |i: int| read_header_line(bodies[i])->Some_0) =~= lines);
    }
}

} // verus!
