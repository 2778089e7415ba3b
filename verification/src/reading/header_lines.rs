//! The header as lines of text, and reading the lines back.

use crate::error::{lemma_first_fault, Emitted};
use crate::laws::{law_element_block, law_header_success, valid_element, valid_header};
use crate::layout::{
    comment_body, comment_lines, element_block, element_blocks, element_body, end_header_body,
    format_body, header_bytes, magic_body, obj_info_body, obj_info_lines, preamble, property_body,
    property_lines, text,
};
use crate::lines::{
    break_free, lemma_decimal_plain, lemma_encoding_keyword, lemma_fixed_words,
    lemma_terminated_concat, lemma_type_tokens_plain, plain, plain_element, plain_header,
    terminated,
};
use crate::ply::{ElementDefView, HeaderView, PropertyDefView};
use crate::reading::scan::{lemma_run_len, run_len};
use crate::writer::NewLine;
use vstd::prelude::*;
use vstd::utf8::{is_ascii_chars, is_ascii_chars_encode_utf8};

verus! {

/// The texts of the comment lines.
pub open spec fn comment_bodies(comments: Seq<Seq<char>>) -> Seq<Seq<u8>> {
    Seq::new(comments.len(), |i: int| comment_body(comments[i]))
}

/// The texts of the object information lines.
pub open spec fn obj_info_bodies(obj_infos: Seq<Seq<char>>) -> Seq<Seq<u8>> {
    Seq::new(obj_infos.len(), |i: int| obj_info_body(obj_infos[i]))
}

/// The texts of the property lines of an element.
pub open spec fn property_bodies(properties: Seq<(Seq<char>, PropertyDefView)>) -> Seq<Seq<u8>> {
    Seq::new(properties.len(), |j: int| property_body(properties[j].1))
}

/// The texts of the lines of an element block.
pub open spec fn block_bodies(element: ElementDefView) -> Seq<Seq<u8>> {
    seq![element_body(element)] + property_bodies(element.properties)
}

/// The texts of the lines of the first `n` element blocks.
pub open spec fn blocks_bodies(elements: Seq<(Seq<char>, ElementDefView)>, n: nat) -> Seq<Seq<u8>>
    decreases n,
{
    if n == 0 {
        Seq::empty()
    } else {
        blocks_bodies(elements, (n - 1) as nat) + block_bodies(elements[n - 1].1)
    }
}

/// The texts of the lines of a header, in order.
pub open spec fn header_bodies(header: HeaderView) -> Seq<Seq<u8>> {
    seq![magic_body(), format_body(header.encoding, header.version)] + comment_bodies(
        header.comments,
    ) + obj_info_bodies(header.obj_infos) + blocks_bodies(header.elements, header.elements.len())
        + seq![end_header_body()]
}

/// One line, terminated.
pub proof fn lemma_terminated_one(body: Seq<u8>, newline: Seq<u8>)
    ensures
        terminated(seq![body], newline) == body + newline,
{
    let bodies = seq![body];
    assert(bodies.drop_last() =~= Seq::<Seq<u8>>::empty());
    assert(terminated(bodies.drop_last(), newline) =~= Seq::<u8>::empty());
    assert(terminated(bodies, newline) =~= body + newline);
}

/// The first `n` comment lines are the first `n` comment texts,
/// terminated.
pub proof fn lemma_comment_bodies(comments: Seq<Seq<char>>, n: nat, newline: Seq<u8>)
    requires
        n <= comments.len(),
    ensures
        comment_lines(comments, n, newline) == terminated(
            comment_bodies(comments).subrange(0, n as int),
            newline,
        ),
    decreases n,
{
    let bodies = comment_bodies(comments).subrange(0, n as int);
    if n > 0 {
        lemma_comment_bodies(comments, (n - 1) as nat, newline);
        assert(bodies.drop_last() =~= comment_bodies(comments).subrange(0, n - 1));
        assert(comment_lines(comments, n, newline) =~= terminated(bodies, newline));
    }
}

/// The first `n` object information lines are the first `n` object
/// information texts, terminated.
pub proof fn lemma_obj_info_bodies(obj_infos: Seq<Seq<char>>, n: nat, newline: Seq<u8>)
    requires
        n <= obj_infos.len(),
    ensures
        obj_info_lines(obj_infos, n, newline) == terminated(
            obj_info_bodies(obj_infos).subrange(0, n as int),
            newline,
        ),
    decreases n,
{
    let bodies = obj_info_bodies(obj_infos).subrange(0, n as int);
    if n > 0 {
        lemma_obj_info_bodies(obj_infos, (n - 1) as nat, newline);
        assert(bodies.drop_last() =~= obj_info_bodies(obj_infos).subrange(0, n - 1));
        assert(obj_info_lines(obj_infos, n, newline) =~= terminated(bodies, newline));
    }
}

/// The first `n` property lines of valid types are the first `n`
/// property texts, terminated.
pub proof fn lemma_property_bodies(
    properties: Seq<(Seq<char>, PropertyDefView)>,
    n: nat,
    newline: Seq<u8>,
)
    requires
        n <= properties.len(),
        forall|j: int|
            0 <= j < properties.len() ==> (#[trigger] property_lines(properties, newline)[j]).fault
                is None,
    ensures
        Emitted::first(property_lines(properties, newline), n).fault is None,
        Emitted::first(property_lines(properties, newline), n).bytes == terminated(
            property_bodies(properties).subrange(0, n as int),
            newline,
        ),
    decreases n,
{
    let lines = property_lines(properties, newline);
    let bodies = property_bodies(properties).subrange(0, n as int);
    if n > 0 {
        lemma_property_bodies(properties, (n - 1) as nat, newline);
        assert(lines[n - 1].fault is None);
        assert(bodies.drop_last() =~= property_bodies(properties).subrange(0, n - 1));
        assert(lines[n - 1].bytes =~= property_body(properties[n - 1].1) + newline);
        assert(Emitted::first(lines, n).bytes =~= terminated(bodies, newline));
    }
}

/// The block of an element whose properties have valid types is the
/// texts of its lines, terminated.
pub proof fn lemma_block_bodies(element: ElementDefView, newline: Seq<u8>)
    requires
        valid_element(element),
    ensures
        element_block(element, newline).fault is None,
        element_block(element, newline).bytes == terminated(block_bodies(element), newline),
{
    let lines = property_lines(element.properties, newline);
    law_element_block(element, newline);
    lemma_first_fault(lines, lines.len());
    lemma_property_bodies(element.properties, element.properties.len(), newline);
    let bodies = property_bodies(element.properties);
    assert(bodies.subrange(0, bodies.len() as int) =~= bodies);
    lemma_terminated_one(element_body(element), newline);
    lemma_terminated_concat(seq![element_body(element)], bodies, newline);
}

/// The first `n` element blocks of a valid header are the texts of their
/// lines, terminated.
pub proof fn lemma_blocks_bodies(
    elements: Seq<(Seq<char>, ElementDefView)>,
    n: nat,
    newline: Seq<u8>,
)
    requires
        n <= elements.len(),
        forall|i: int| 0 <= i < elements.len() ==> valid_element((#[trigger] elements[i]).1),
    ensures
        Emitted::first(element_blocks(elements, newline), n).fault is None,
        Emitted::first(element_blocks(elements, newline), n).bytes == terminated(
            blocks_bodies(elements, n),
            newline,
        ),
    decreases n,
{
    if n > 0 {
        lemma_blocks_bodies(elements, (n - 1) as nat, newline);
        lemma_block_bodies(elements[n - 1].1, newline);
        lemma_terminated_concat(
            blocks_bodies(elements, (n - 1) as nat),
            block_bodies(elements[n - 1].1),
            newline,
        );
    }
}

/// A header whose declared types are valid is the texts of its lines,
/// each followed by the line terminator.
pub proof fn law_header_is_lines(header: HeaderView, newline: Seq<u8>)
    requires
        valid_header(header),
    ensures
        header_bytes(header, newline).fault is None,
        header_bytes(header, newline).bytes == terminated(header_bodies(header), newline),
{
    law_header_success(header, newline);
    assert forall|i: int| 0 <= i < header.elements.len() implies valid_element(
        (#[trigger] header.elements[i]).1,
    ) by {
        law_element_block(header.elements[i].1, newline);
        let blocks = element_blocks(header.elements, newline);
        lemma_first_fault(blocks, blocks.len());
        assert(blocks[i].fault is None);
    }
    let top = seq![magic_body(), format_body(header.encoding, header.version)];
    let comments = comment_bodies(header.comments);
    let obj_infos = obj_info_bodies(header.obj_infos);
    let blocks = blocks_bodies(header.elements, header.elements.len());
    let end = seq![end_header_body()];
    lemma_terminated_one(magic_body(), newline);
    lemma_terminated_one(format_body(header.encoding, header.version), newline);
    lemma_terminated_one(end_header_body(), newline);
    assert(top =~= seq![magic_body()] + seq![format_body(header.encoding, header.version)]);
    lemma_terminated_concat(
        seq![magic_body()],
        seq![format_body(header.encoding, header.version)],
        newline,
    );
    lemma_comment_bodies(header.comments, header.comments.len(), newline);
    assert(comments.subrange(0, comments.len() as int) =~= comments);
    lemma_obj_info_bodies(header.obj_infos, header.obj_infos.len(), newline);
    assert(obj_infos.subrange(0, obj_infos.len() as int) =~= obj_infos);
    lemma_blocks_bodies(header.elements, header.elements.len(), newline);
    lemma_terminated_concat(top, comments, newline);
    lemma_terminated_concat(top + comments, obj_infos, newline);
    lemma_terminated_concat(top + comments + obj_infos, blocks, newline);
    lemma_terminated_concat(top + comments + obj_infos + blocks, end, newline);
    assert(preamble(header, newline) =~= terminated(top + comments + obj_infos, newline));
}

/// The bytes that are no line breaks.
pub open spec fn line_byte() -> spec_fn(u8) -> bool {
    |byte: u8| byte != 10 && byte != 13
}

/// Reads one line from the front of `input`: the text up to the first
/// line break, which must be the line terminator.
pub open spec fn read_line(input: Seq<u8>, newline: Seq<u8>) -> Option<(Seq<u8>, Seq<u8>)> {
    let n = run_len(input, line_byte());
    if newline.len() > 0 && input.len() >= n + newline.len() && input.subrange(
        n as int,
        (n + newline.len()) as int,
    ) == newline {
        Some((input.subrange(0, n as int), input.skip((n + newline.len()) as int)))
    } else {
        None
    }
}

/// Reads lines from the front of `input` up to and with the first whose
/// text is `last`.
pub open spec fn read_lines(input: Seq<u8>, newline: Seq<u8>, last: Seq<u8>) -> Option<
    (Seq<Seq<u8>>, Seq<u8>),
>
    decreases input.len(),
{
    match read_line(input, newline) {
        None => None,
        Some((body, rest)) => if body == last {
            Some((seq![body], rest))
        } else if rest.len() < input.len() {
            match read_lines(rest, newline, last) {
                Some((more, left)) => Some((seq![body] + more, left)),
                None => None,
            }
        } else {
            None
        },
    }
}

/// For every newline policy: a text without line breaks, followed by the
/// terminator, is read as one line.
pub proof fn lemma_read_line(body: Seq<u8>, policy: NewLine, rest: Seq<u8>)
    requires
        break_free(body),
    ensures
        read_line(body + policy.bytes() + rest, policy.bytes()) == Some((body, rest)),
{
    let newline = policy.bytes();
    let input = body + newline + rest;
    assert(input =~= body + (newline + rest));
    assert((newline + rest)[0] == newline[0]);
    lemma_run_len(body, newline + rest, line_byte());
    assert(input.subrange(body.len() as int, (body.len() + newline.len()) as int) =~= newline);
    assert(input.skip((body.len() + newline.len()) as int) =~= rest);
}

/// For every newline policy: from lines without line breaks, each
/// terminated, of which the last and no other is `last`, the same lines
/// are read back, and what follows them is left.
pub proof fn law_lines_read_back(
    bodies: Seq<Seq<u8>>,
    policy: NewLine,
    last: Seq<u8>,
    rest: Seq<u8>,
)
    requires
        bodies.len() > 0,
        bodies.last() == last,
        forall|i: int| 0 <= i < bodies.len() ==> break_free(#[trigger] bodies[i]),
        forall|i: int| 0 <= i < bodies.len() - 1 ==> #[trigger] bodies[i] != last,
    ensures
        read_lines(terminated(bodies, policy.bytes()) + rest, policy.bytes(), last) == Some(
            (bodies, rest),
        ),
    decreases bodies.len(),
{
    let newline = policy.bytes();
    let first = bodies[0];
    let others = bodies.drop_first();
    assert(bodies =~= seq![first] + others);
    lemma_terminated_concat(seq![first], others, newline);
    lemma_terminated_one(first, newline);
    let input = terminated(bodies, newline) + rest;
    let tail = terminated(others, newline) + rest;
    assert(input =~= first + newline + tail);
    lemma_read_line(first, policy, tail);
    if bodies.len() == 1 {
        assert(others =~= Seq::<Seq<u8>>::empty());
        assert(terminated(others, newline) =~= Seq::<u8>::empty());
        assert(tail =~= rest);
        assert(seq![first] =~= bodies);
    } else {
        assert(first != last);
        assert(others.last() == last);
        assert forall|i: int| 0 <= i < others.len() implies break_free(#[trigger] others[i]) by {
            assert(others[i] == bodies[i + 1]);
        }
        assert forall|i: int| 0 <= i < others.len() - 1 implies #[trigger] others[i] != last by {
            assert(others[i] == bodies[i + 1]);
        }
        law_lines_read_back(others, policy, last, rest);
        assert(tail.len() < input.len());
    }
}

/// The first bytes of the fixed words that begin a header line.
pub proof fn lemma_line_heads()
    ensures
        text("ply"@).len() == 3 && text("ply"@)[0] == 112,
        text("format "@).len() == 7 && text("format "@)[0] == 102,
        text("comment "@).len() == 8 && text("comment "@)[0] == 99,
        text("obj_info "@).len() == 9 && text("obj_info "@)[0] == 111,
        text("element "@).len() == 8 && text("element "@)[0] == 101 && text("element "@)[1] == 108,
        text("property "@).len() == 9 && text("property "@)[0] == 112,
        text("end_header"@).len() == 10 && text("end_header"@)[0] == 101 && text(
            "end_header"@,
        )[1] == 110,
{
    reveal_strlit("ply");
    reveal_strlit("format ");
    reveal_strlit("comment ");
    reveal_strlit("obj_info ");
    reveal_strlit("element ");
    reveal_strlit("property ");
    reveal_strlit("end_header");
    assert(is_ascii_chars("ply"@));
    is_ascii_chars_encode_utf8("ply"@);
    assert(is_ascii_chars("format "@));
    is_ascii_chars_encode_utf8("format "@);
    assert(is_ascii_chars("comment "@));
    is_ascii_chars_encode_utf8("comment "@);
    assert(is_ascii_chars("obj_info "@));
    is_ascii_chars_encode_utf8("obj_info "@);
    assert(is_ascii_chars("element "@));
    is_ascii_chars_encode_utf8("element "@);
    assert(is_ascii_chars("property "@));
    is_ascii_chars_encode_utf8("property "@);
    assert(is_ascii_chars("end_header"@));
    is_ascii_chars_encode_utf8("end_header"@);
}

/// Whether lines are texts without line breaks, none of them the text of
/// the closing line.
pub open spec fn inner_lines(bodies: Seq<Seq<u8>>) -> bool {
    forall|i: int|
        0 <= i < bodies.len() ==> break_free(#[trigger] bodies[i]) && bodies[i]
            != end_header_body()
}

/// The lines of a plain element with valid types are inner lines.
pub proof fn lemma_block_inner(element: ElementDefView)
    requires
        plain_element(element),
    ensures
        inner_lines(block_bodies(element)),
{
    lemma_line_heads();
    lemma_fixed_words();
    lemma_decimal_plain(element.count);
    let bodies = block_bodies(element);
    assert forall|i: int| 0 <= i < bodies.len() implies break_free(#[trigger] bodies[i])
        && bodies[i] != end_header_body() by {
        if i == 0 {
            assert(bodies[i] == element_body(element));
            assert(element_body(element)[1] == 108);
        } else {
            let property = element.properties[i - 1].1;
            assert(bodies[i] == property_body(property));
            assert(plain(property.name));
            lemma_type_tokens_plain(property.data_type);
            assert(property_body(property)[0] == 112);
        }
    }
}

/// The lines of the first `n` blocks of plain elements are inner lines.
pub proof fn lemma_blocks_inner(elements: Seq<(Seq<char>, ElementDefView)>, n: nat)
    requires
        n <= elements.len(),
        forall|i: int| 0 <= i < elements.len() ==> plain_element((#[trigger] elements[i]).1),
    ensures
        inner_lines(blocks_bodies(elements, n)),
    decreases n,
{
    if n > 0 {
        lemma_blocks_inner(elements, (n - 1) as nat);
        lemma_block_inner(elements[n - 1].1);
    }
}

/// For every newline policy: from a header that is plain and whose
/// declared types are valid, whatever follows it, the texts of its lines
/// are read back, and what follows the header is left.
pub proof fn law_header_lines_read_back(header: HeaderView, policy: NewLine, rest: Seq<u8>)
    requires
        plain_header(header),
        valid_header(header),
    ensures
        read_lines(
            header_bytes(header, policy.bytes()).bytes + rest,
            policy.bytes(),
            end_header_body(),
        ) == Some((header_bodies(header), rest)),
{
    law_header_is_lines(header, policy.bytes());
    lemma_line_heads();
    lemma_fixed_words();
    lemma_encoding_keyword(header.encoding);
    lemma_decimal_plain(header.version.major as nat);
    lemma_decimal_plain(header.version.minor as nat);
    lemma_blocks_inner(header.elements, header.elements.len());
    let top = seq![magic_body(), format_body(header.encoding, header.version)];
    let comments = comment_bodies(header.comments);
    let obj_infos = obj_info_bodies(header.obj_infos);
    let blocks = blocks_bodies(header.elements, header.elements.len());
    let inner = top + comments + obj_infos + blocks;
    let bodies = header_bodies(header);
    assert(format_body(header.encoding, header.version)[0] == 102);
    assert(inner_lines(top));
    assert forall|i: int| 0 <= i < comments.len() implies break_free(#[trigger] comments[i])
        && comments[i] != end_header_body() by {
        assert(plain(header.comments[i]));
        assert(comment_body(header.comments[i])[0] == 99);
    }
    assert forall|i: int| 0 <= i < obj_infos.len() implies break_free(#[trigger] obj_infos[i])
        && obj_infos[i] != end_header_body() by {
        assert(plain(header.obj_infos[i]));
        assert(obj_info_body(header.obj_infos[i])[0] == 111);
    }
    assert(inner_lines(inner));
    assert(bodies =~= inner + seq![end_header_body()]);
    assert forall|i: int| 0 <= i < bodies.len() implies break_free(#[trigger] bodies[i]) by {
        if i < inner.len() {
            assert(bodies[i] == inner[i]);
        }
    }
    assert forall|i: int| 0 <= i < bodies.len() - 1 implies #[trigger] bodies[i]
        != end_header_body() by {
        assert(bodies[i] == inner[i]);
    }
    law_lines_read_back(bodies, policy, end_header_body(), rest);
}

} // verus!
