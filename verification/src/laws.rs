//! What holds of every input.

use crate::ast::name_type::NameType;
use crate::ast::{AstView, NameView};
use crate::dot_writer::drawable;
use crate::grammar::{
    is_blank, is_trailing_blank, lemma_trimmed, parsed_bare, trimmed, trimmed_len, blanks_end,
    is_plain, lemma_document_advances, lemma_documents_wf, lemma_name_advances,
    lemma_name_not_empty, literal_bytes, literal_end, literal_width, parsed, parsed_aggregate,
    parsed_arrow, parsed_caption, parsed_chars, parsed_command, parsed_document,
    parsed_documents, parsed_element, parsed_element_parser, parsed_event, parsed_line,
    parsed_name, parsed_policy, parsed_read_model, parsed_relation_ship, parsed_title,
    parsed_user, spaces_end,
};
use crate::parse_error::Failure;
use vstd::prelude::*;
use vstd::utf8::{decode_utf8, valid_utf8};

verus! {

/// One of the seven letters that open a record.
pub open spec fn is_tag(byte: u8) -> bool {
    byte == 0x74 || byte == 0x75 || byte == 0x63 || byte == 0x65 || byte == 0x61 || byte == 0x70
        || byte == 0x72
}

/// The node that a record with the tag `tag` stands for: the title for `t`,
/// else the declaration of the kind that the tag names.
pub open spec fn record_node(tag: u8, name: Seq<char>, caption: Option<Seq<char>>) -> AstView
    recommends
        is_tag(tag),
{
    if tag == 0x74 {
        AstView::TitleDef(NameView { name_type: NameType::Title, name, caption })
    } else {
        AstView::NameDef(
            NameView {
                name_type: if tag == 0x75 {
                    NameType::User
                } else if tag == 0x63 {
                    NameType::Command
                } else if tag == 0x65 {
                    NameType::Event
                } else if tag == 0x61 {
                    NameType::Aggregate
                } else if tag == 0x70 {
                    NameType::Policy
                } else {
                    NameType::ReadModel
                },
                name,
                caption,
            },
        )
    }
}

/// A run of plain bytes is read as a literal up to the first byte that is
/// not plain, and stands for itself.
pub proof fn law_plain_run_stands_for_itself(s: Seq<u8>, pos: int, end: int)
    requires
        0 <= pos <= end <= s.len(),
        forall|i: int| pos <= i < end ==> is_plain(#[trigger] s[i]),
        literal_width(s, end) == 0,
    ensures
        literal_end(s, pos) == end,
        literal_bytes(s, pos) == s.subrange(pos, end),
    decreases end - pos,
{
    if pos < end {
        law_plain_run_stands_for_itself(s, pos + 1, end);
        assert(literal_bytes(s, pos) =~= s.subrange(pos, end));
    } else {
        assert(literal_bytes(s, pos) =~= s.subrange(pos, end));
    }
}

/// A run of plain bytes that is valid UTF-8 is read as the text that the
/// bytes encode, whatever characters that text holds.
pub proof fn law_plain_text_is_kept(s: Seq<u8>, pos: int, end: int)
    requires
        0 <= pos < end <= s.len(),
        forall|i: int| pos <= i < end ==> is_plain(#[trigger] s[i]),
        literal_width(s, end) == 0,
        valid_utf8(s.subrange(pos, end)),
    ensures
        parsed_chars(s, pos) == Ok::<(Seq<char>, int), Failure>(
            (decode_utf8(s.subrange(pos, end)), end),
        ),
{
    law_plain_run_stands_for_itself(s, pos, end);
}

/// A record that begins the input and is read to its end is the whole
/// document: one node of the kind that the tag names, with the name and the
/// caption that the record holds.
proof fn lemma_single_record(s: Seq<u8>, name: Seq<char>, caption: Option<Seq<char>>)
    requires
        s.len() >= 2,
        is_tag(s[0]),
        parsed_element_parser(s, 0, s[0]) matches Ok(((read, label, _), end)) && read == name
            && label == caption && end == s.len(),
    ensures
        parsed(s) == Ok::<AstView, Failure>(
            AstView::Documents(seq![record_node(s[0], name, caption)]),
        ),
{
    let tag = s[0];
    let end = s.len() as int;
    let node = record_node(tag, name, caption);
    assert(spaces_end(s, 0) == 0);
    assert(blanks_end(s, 0) == 0);
    assert(parsed_title(s, 0) is Ok <==> tag == 0x74);
    assert(parsed_user(s, 0) is Ok <==> tag == 0x75);
    assert(parsed_command(s, 0) is Ok <==> tag == 0x63);
    assert(parsed_event(s, 0) is Ok <==> tag == 0x65);
    assert(parsed_aggregate(s, 0) is Ok <==> tag == 0x61);
    assert(parsed_policy(s, 0) is Ok <==> tag == 0x70);
    assert(parsed_read_model(s, 0) is Ok <==> tag == 0x72);
    assert(blanks_end(s, end) == end);
    assert(spaces_end(s, end) == end);
    assert(parsed_element(s, 0) matches Ok(((read, _), last)) && read == node && last == end);
    assert(parsed_document(s, 0) matches Ok(((read, _), last)) && read == node && last == end);
    lemma_document_advances(s, end);
    assert(parsed_document(s, end) is Err);
    assert(parsed_documents(s, end).0 =~= Seq::<AstView>::empty());
    assert(parsed_documents(s, end).1 == end);
    assert(parsed_documents(s, 0).0 =~= seq![node]);
    assert(parsed_documents(s, 0).1 == end);
}

/// An input that is a tag, a colon and a name, with no caption, is read as
/// one node of the kind that the tag names, with that name and no caption.
pub proof fn law_record_without_caption(s: Seq<u8>, name: Seq<char>)
    requires
        s.len() >= 2,
        is_tag(s[0]),
        s[1] == 0x3A,
        parsed_name(s, 2) == Ok::<(Seq<char>, int), Failure>((name, s.len() as int)),
    ensures
        parsed(s) == Ok::<AstView, Failure>(
            AstView::Documents(seq![record_node(s[0], name, None)]),
        ),
{
    let end = s.len() as int;
    assert(spaces_end(s, 0) == 0);
    assert(blanks_end(s, end) == end);
    assert(parsed_caption(s, end) is Err);
    assert(spaces_end(s, end) == end);
    lemma_single_record(s, name, None);
}

/// An input that is a tag, a colon, a name and a caption is read as one node
/// of the kind that the tag names, with that name and with the text of the
/// caption, escapes decoded, as its caption.
pub proof fn law_record_with_caption(s: Seq<u8>, name: Seq<char>, colon: int, caption: Seq<char>)
    requires
        s.len() >= 2,
        is_tag(s[0]),
        s[1] == 0x3A,
        parsed_name(s, 2) == Ok::<(Seq<char>, int), Failure>((name, colon)),
        parsed_caption(s, colon) == Ok::<(Seq<char>, int), Failure>((caption, s.len() as int)),
    ensures
        parsed(s) == Ok::<AstView, Failure>(
            AstView::Documents(seq![record_node(s[0], name, Some(caption))]),
        ),
{
    let end = s.len() as int;
    assert(spaces_end(s, 0) == 0);
    assert(spaces_end(s, end) == end);
    lemma_single_record(s, name, Some(caption));
}

/// The operator decides the kind of a relationship: what is read with `--` is
/// a line and never an arrow, what is read with `->` is an arrow and never a
/// line, and nothing else is read as a relationship.
pub proof fn law_operator_decides_kind(s: Seq<u8>, pos: int)
    ensures
        parsed_relation_ship(s, pos) matches Ok(((node, _), _)) ==> {
            let start = spaces_end(s, blanks_end(s, pos));
            &&& parsed_name(s, start) matches Ok((_, dash))
            &&& 0 <= dash && dash + 1 < s.len()
            &&& s[dash] == 0x2D
            &&& (node is Line <==> s[dash + 1] == 0x2D)
            &&& (node is Arrow <==> s[dash + 1] == 0x3E)
            &&& (node is Line || node is Arrow)
        },
{
    let start = spaces_end(s, blanks_end(s, pos));
    lemma_name_advances(s, start);
}

/// A tag and a colon with nothing after them are no record: the parse of
/// such an input fails, at the place where the name is missing.
pub proof fn law_record_needs_a_name(tag: u8)
    requires
        is_tag(tag),
    ensures
        parsed(seq![tag, 0x3Au8]) matches Err(stop) && stop.position == 2,
{
    let s = seq![tag, 0x3Au8];
    assert(spaces_end(s, 0) == 0);
    assert(blanks_end(s, 0) == 0);
    assert(blanks_end(s, 2) == 2);
    assert(literal_width(s, 2) == 0);
    assert(parsed_name(s, 2) matches Err(stop) && stop.position == 2);
    assert(literal_width(s, 1) == 0);
    assert(literal_end(s, 1) == 1);
    assert(literal_end(s, 0) == 1);
    assert(blanks_end(s, 1) == 1);
    assert(parsed_name(s, 0) matches Ok((_, end)) ==> end == 1);
    assert(parsed_name(s, 0) matches Err(stop) ==> stop.position == 0);
    assert(parsed_line(s, 0) matches Err(stop) && stop.position <= 1);
    assert(parsed_arrow(s, 0) matches Err(stop) && stop.position <= 1);
    assert(parsed_relation_ship(s, 0) matches Err(stop) && stop.position <= 1);
    assert(parsed_title(s, 0) matches Err(stop) && stop.position == (if tag == 0x74 {
        2int
    } else {
        0int
    }));
    assert(parsed_user(s, 0) matches Err(stop) && stop.position == (if tag == 0x75 {
        2int
    } else {
        0int
    }));
    assert(parsed_command(s, 0) matches Err(stop) && stop.position == (if tag == 0x63 {
        2int
    } else {
        0int
    }));
    assert(parsed_event(s, 0) matches Err(stop) && stop.position == (if tag == 0x65 {
        2int
    } else {
        0int
    }));
    assert(parsed_aggregate(s, 0) matches Err(stop) && stop.position == (if tag == 0x61 {
        2int
    } else {
        0int
    }));
    assert(parsed_policy(s, 0) matches Err(stop) && stop.position == (if tag == 0x70 {
        2int
    } else {
        0int
    }));
    assert(parsed_read_model(s, 0) matches Err(stop) && stop.position == (if tag == 0x72 {
        2int
    } else {
        0int
    }));
    assert(parsed_element(s, 0) matches Err(stop) && stop.position == 2);
    assert(parsed_document(s, 0) matches Err(stop) && stop.position == 2);
}

/// A document that has been read can be shown as a diagram: none of its
/// declarations is of the kind title.
pub proof fn law_document_is_drawable(s: Seq<u8>)
    ensures
        parsed(s) matches Ok(document) ==> drawable(document),
{
    lemma_documents_drawable(s, 0);
}

/// The nodes that are read one after another can all be shown.
proof fn lemma_documents_drawable(s: Seq<u8>, pos: int)
    ensures
        forall|i: int|
            0 <= i < parsed_documents(s, pos).0.len() ==> drawable(
                #[trigger] parsed_documents(s, pos).0[i],
            ),
    decreases s.len() - pos,
{
    lemma_document_advances(s, pos);
    if let Ok(((node, _), end)) = parsed_document(s, pos) {
        lemma_documents_drawable(s, end);
        let rest = parsed_documents(s, end).0;
        assert(parsed_documents(s, pos).0 == seq![node] + rest);
        assert(drawable(node));
        assert forall|i: int| 0 <= i < parsed_documents(s, pos).0.len() implies drawable(
            #[trigger] parsed_documents(s, pos).0[i],
        ) by {
            if i > 0 {
                assert(parsed_documents(s, pos).0[i] == rest[i - 1]);
            }
        }
    }
}

/// Bytes that end in blanks from `keep` on, and in no blank before it, are
/// trimmed to their first `keep`.
proof fn lemma_trimmed_to(bytes: Seq<u8>, keep: int)
    requires
        0 <= keep <= bytes.len(),
        forall|i: int| keep <= i < bytes.len() ==> is_trailing_blank(#[trigger] bytes[i]),
        keep > 0 ==> !is_trailing_blank(bytes[keep - 1]),
    ensures
        trimmed_len(bytes) == keep,
    decreases bytes.len(),
{
    if keep < bytes.len() {
        let head = bytes.drop_last();
        assert forall|i: int| keep <= i < head.len() implies is_trailing_blank(
            #[trigger] head[i],
        ) by {
            assert(head[i] == bytes[i]);
        }
        assert(keep > 0 ==> head[keep - 1] == bytes[keep - 1]);
        lemma_trimmed_to(head, keep);
    }
}

/// Blanks from `pos` up to `end`, and no blank at `end`, are skipped to `end`.
proof fn lemma_blanks_to(s: Seq<u8>, pos: int, end: int)
    requires
        0 <= pos <= end <= s.len(),
        forall|i: int| pos <= i < end ==> is_blank(#[trigger] s[i]),
        end < s.len() ==> !is_blank(s[end]),
    ensures
        blanks_end(s, pos) == end,
    decreases end - pos,
{
    if pos < end {
        lemma_blanks_to(s, pos + 1, end);
    }
}

/// A bare literal is read without the blanks at its end: what is read is the
/// text of the run up to its last byte that is no space, tab or carriage
/// return, and nothing but such bytes is cut.
pub proof fn law_bare_literal_is_trimmed(s: Seq<u8>, pos: int)
    ensures
        parsed_bare(s, pos) matches Ok((text, end)) ==> {
            let run = literal_bytes(s, pos);
            let kept = trimmed(run);
            &&& end == literal_end(s, pos)
            &&& text == decode_utf8(kept)
            &&& 0 < kept.len() <= run.len()
            &&& !is_trailing_blank(kept.last())
            &&& kept == run.take(kept.len() as int)
            &&& forall|i: int| kept.len() <= i < run.len() ==> is_trailing_blank(run[i])
        },
{
    lemma_trimmed(literal_bytes(s, pos));
}

/// Blanks on both sides of a name are no part of it: an input that is
/// blanks, a run of plain bytes that neither begins nor ends with a blank, and
/// blanks again is read as the name that the run in the middle spells.
pub proof fn law_name_is_trimmed(s: Seq<u8>, from: int, to: int)
    requires
        0 <= from < to <= s.len(),
        forall|i: int| 0 <= i < from ==> is_blank(#[trigger] s[i]),
        forall|i: int| from <= i < to ==> is_plain(#[trigger] s[i]),
        forall|i: int| to <= i < s.len() ==> is_blank(#[trigger] s[i]),
        !is_blank(s[from]),
        !is_trailing_blank(s[to - 1]),
        valid_utf8(s.subrange(from, to)),
    ensures
        parsed_name(s, 0) == Ok::<(Seq<char>, int), Failure>(
            (decode_utf8(s.subrange(from, to)), s.len() as int),
        ),
{
    let end = s.len() as int;
    lemma_blanks_to(s, 0, from);
    assert forall|i: int| from <= i < end implies is_plain(#[trigger] s[i]) by {
        if i >= to {
            assert(is_blank(s[i]));
        }
    }
    law_plain_run_stands_for_itself(s, from, end);
    let run = s.subrange(from, end);
    assert forall|i: int| to - from <= i < run.len() implies is_trailing_blank(
        #[trigger] run[i],
    ) by {
        assert(is_blank(s[from + i]));
    }
    lemma_trimmed_to(run, to - from);
    assert(trimmed(run) =~= s.subrange(from, to));
    assert(blanks_end(s, end) == end);
}

/// The failure of a parse is the furthest that it has met: it is at or after
/// the failure of every caption that was tried and left out, and at or after
/// the failure of the node that could not be read.
pub proof fn law_failure_is_the_furthest(s: Seq<u8>, pos: int)
    ensures
        match parsed_document(s, pos) {
            Ok(((_, kept), end)) => {
                &&& parsed_documents(s, pos).2.position >= parsed_documents(s, end).2.position
                &&& kept matches Some(left_out) ==> parsed_documents(s, pos).2.position
                    >= left_out.position
            },
            Err(stop) => parsed_documents(s, pos).2 == stop,
        },
{
}

/// No rule reads an empty name.
pub proof fn law_name_is_never_empty(s: Seq<u8>, pos: int)
    ensures
        parsed_name(s, pos) matches Ok((name, _)) ==> name.len() > 0,
{
    lemma_name_not_empty(s, pos);
}

/// In a document that has been read, no name is empty.
pub proof fn law_document_is_well_formed(s: Seq<u8>)
    ensures
        parsed(s) matches Ok(document) ==> document.wf(),
{
    lemma_documents_wf(s, 0);
}

/// A whole input is read, or the parse fails: the parse succeeds exactly when
/// nothing but blanks and line ends is left after the nodes that can be read
/// from the start, and then it gives all of them.
pub proof fn law_no_partial_document(s: Seq<u8>)
    ensures
        parsed(s) is Ok <==> spaces_end(s, parsed_documents(s, 0).1) == s.len(),
        parsed(s) matches Ok(document) ==> document == AstView::Documents(
            parsed_documents(s, 0).0,
        ),
{
}

/// The result of a parse depends on the bytes of the input alone: inputs that
/// hold the same bytes give the same result.
pub proof fn law_parse_depends_on_bytes_alone(first: Seq<u8>, second: Seq<u8>)
    requires
        first.len() == second.len(),
        forall|i: int| 0 <= i < first.len() ==> first[i] == second[i],
    ensures
        parsed(first) == parsed(second),
{
    assert(first =~= second);
}

} // verus!
