//! Inputs joined by a line feed.
//!
//! A rule looks at the bytes from its position on, and a line feed ends
//! whatever a rule can read. So what a rule reads inside an input, it also
//! reads where that input stands inside a longer one and is followed there by
//! a line feed or by nothing.

use crate::ast::AstView;
use crate::grammar::{
    blanks_end, escape_units, escapes_end, hex_digits, is_blank, is_hex_digit, is_space,
    lemma_blanks_end, lemma_caption_advances, lemma_document_advances,
    lemma_element_parser_advances, lemma_escapes_end, lemma_hex_digits, lemma_literal_end,
    lemma_name_advances, lemma_relation_ship_parser_advances, lemma_spaces_end, literal_bytes,
    literal_end, literal_width, optional, or_else, parsed, parsed_bare, parsed_caption,
    parsed_chars, parsed_document, parsed_documents, parsed_element, parsed_element_parser,
    parsed_name, parsed_relation_ship, parsed_relation_ship_parser, parsed_segments,
    parsed_string, parsed_unicode_escape, parsed_utf16_chars, spaces_end, Parsed,
};
use crate::parse_error::Failure;
use vstd::prelude::*;

verus! {

/// The input `s` stands in `t` from the offset `by` on, and is followed there
/// by a line feed or by nothing.
pub open spec fn stands_in(s: Seq<u8>, t: Seq<u8>, by: int) -> bool {
    &&& 0 <= by
    &&& s.len() + by <= t.len()
    &&& forall|i: int| 0 <= i < s.len() ==> #[trigger] s[i] == t[i + by]
    &&& s.len() + by < t.len() ==> t[s.len() + by] == 0x0A
}

/// Two rules read the same: both fail, or both read the same value, the
/// second `by` bytes further on.
pub open spec fn agree<T>(first: Parsed<T>, second: Parsed<T>, by: int) -> bool {
    match first {
        Ok((value, end)) => second matches Ok((other, far)) && other == value && far == end + by,
        Err(_) => second is Err,
    }
}

/// Where the position `end` of `s` lies in `t`: `by` bytes further on, or,
/// for the end of `s`, after the blanks and line ends that follow `s` in `t`.
pub open spec fn moved(s: Seq<u8>, t: Seq<u8>, by: int, end: int) -> int {
    if end < s.len() {
        end + by
    } else {
        spaces_end(t, s.len() + by)
    }
}

/// Two rules read the same node: both fail, or both read the same node, the
/// second up to where the end of the first lies in `t`.
pub open spec fn agree_on_node(
    first: Parsed<(AstView, Option<Failure>)>,
    second: Parsed<(AstView, Option<Failure>)>,
    s: Seq<u8>,
    t: Seq<u8>,
    by: int,
) -> bool {
    match first {
        Ok(((node, _), end)) => second matches Ok(((other, _), far)) && other == node && far
            == moved(s, t, by, end),
        Err(_) => second is Err,
    }
}

/// Blanks are skipped alike.
proof fn lemma_blanks_stand(s: Seq<u8>, t: Seq<u8>, by: int, pos: int)
    requires
        stands_in(s, t, by),
        0 <= pos <= s.len(),
    ensures
        blanks_end(t, pos + by) == blanks_end(s, pos) + by,
    decreases s.len() - pos,
{
    if pos < s.len() {
        assert(s[pos] == t[pos + by]);
        if is_blank(s[pos]) {
            lemma_blanks_stand(s, t, by, pos + 1);
        }
    }
}

/// Blanks and line ends are skipped alike, up to the end of `s`; from there
/// on those that follow `s` in `t` are skipped too.
proof fn lemma_spaces_stand(s: Seq<u8>, t: Seq<u8>, by: int, pos: int)
    requires
        stands_in(s, t, by),
        0 <= pos <= s.len(),
    ensures
        spaces_end(t, pos + by) == moved(s, t, by, spaces_end(s, pos)),
        pos <= spaces_end(s, pos) <= s.len(),
    decreases s.len() - pos,
{
    if pos < s.len() {
        assert(s[pos] == t[pos + by]);
        if is_space(s[pos]) {
            lemma_spaces_stand(s, t, by, pos + 1);
        }
    }
}

/// A run of literal characters is read alike.
proof fn lemma_literal_stands(s: Seq<u8>, t: Seq<u8>, by: int, pos: int)
    requires
        stands_in(s, t, by),
        0 <= pos <= s.len(),
    ensures
        literal_width(t, pos + by) == literal_width(s, pos),
        literal_end(t, pos + by) == literal_end(s, pos) + by,
        literal_bytes(t, pos + by) == literal_bytes(s, pos),
        pos <= literal_end(s, pos) <= s.len(),
    decreases s.len() - pos,
{
    if pos < s.len() {
        assert(s[pos] == t[pos + by]);
    }
    if pos + 1 < s.len() {
        assert(s[pos + 1] == t[pos + 1 + by]);
    }
    assert(literal_width(t, pos + by) == literal_width(s, pos));
    if literal_width(s, pos) > 0 {
        lemma_literal_stands(s, t, by, pos + literal_width(s, pos));
    }
}

/// Hexadecimal digits are counted alike.
proof fn lemma_hex_stands(s: Seq<u8>, t: Seq<u8>, by: int, pos: int, limit: nat)
    requires
        stands_in(s, t, by),
        0 <= pos <= s.len(),
    ensures
        hex_digits(t, pos + by, limit) == hex_digits(s, pos, limit),
    decreases limit,
{
    if pos < s.len() {
        assert(s[pos] == t[pos + by]);
        if limit > 0 && is_hex_digit(s[pos]) {
            lemma_hex_stands(s, t, by, pos + 1, (limit - 1) as nat);
        }
    }
}

/// UTF-16 escapes and runs of them are read alike.
proof fn lemma_escape_stands(s: Seq<u8>, t: Seq<u8>, by: int, pos: int)
    requires
        stands_in(s, t, by),
        0 <= pos <= s.len(),
    ensures
        agree(parsed_unicode_escape(s, pos), parsed_unicode_escape(t, pos + by), by),
        escapes_end(t, pos + by) == escapes_end(s, pos) + by,
        escape_units(t, pos + by) == escape_units(s, pos),
        pos <= escapes_end(s, pos) <= s.len(),
    decreases s.len() - pos,
{
    if pos < s.len() {
        assert(s[pos] == t[pos + by]);
    }
    if pos + 1 < s.len() {
        assert(s[pos + 1] == t[pos + 1 + by]);
        lemma_hex_stands(s, t, by, pos + 2, 4);
        lemma_hex_digits(s, pos + 2, 4);
        if hex_digits(s, pos + 2, 4) == 4 {
            assert(s[pos + 2] == t[pos + 2 + by]);
            assert(s[pos + 3] == t[pos + 3 + by]);
            assert(s[pos + 4] == t[pos + 4 + by]);
            assert(s[pos + 5] == t[pos + 5 + by]);
        }
    }
    if parsed_unicode_escape(s, pos) is Ok {
        lemma_escape_stands(s, t, by, pos + 6);
    }
}

/// Literals are read alike: runs of characters, runs of escapes, bare and
/// quoted literals.
proof fn lemma_text_stands(s: Seq<u8>, t: Seq<u8>, by: int, pos: int)
    requires
        stands_in(s, t, by),
        0 <= pos <= s.len(),
    ensures
        agree(parsed_chars(s, pos), parsed_chars(t, pos + by), by),
        agree(parsed_utf16_chars(s, pos), parsed_utf16_chars(t, pos + by), by),
        agree(parsed_bare(s, pos), parsed_bare(t, pos + by), by),
        agree(parsed_string(s, pos), parsed_string(t, pos + by), by),
        agree(
            or_else(parsed_chars(s, pos), parsed_utf16_chars(s, pos)),
            or_else(parsed_chars(t, pos + by), parsed_utf16_chars(t, pos + by)),
            by,
        ),
{
    lemma_literal_stands(s, t, by, pos);
    lemma_escape_stands(s, t, by, pos);
    if pos < s.len() {
        assert(s[pos] == t[pos + by]);
        lemma_literal_stands(s, t, by, pos + 1);
        if let Ok((_, end)) = parsed_chars(s, pos + 1) {
            if end < s.len() {
                assert(s[end] == t[end + by]);
            }
        }
    }
}

/// The text between the quotes of a caption is read alike.
proof fn lemma_segments_stand(s: Seq<u8>, t: Seq<u8>, by: int, pos: int)
    requires
        stands_in(s, t, by),
        0 <= pos <= s.len(),
    ensures
        parsed_segments(t, pos + by).0 == parsed_segments(s, pos).0,
        parsed_segments(t, pos + by).1 == parsed_segments(s, pos).1 + by,
        pos <= parsed_segments(s, pos).1 <= s.len(),
    decreases s.len() - pos,
{
    lemma_text_stands(s, t, by, pos);
    lemma_literal_end(s, pos);
    lemma_escapes_end(s, pos);
    if let Ok((_, end)) = or_else(parsed_chars(s, pos), parsed_utf16_chars(s, pos)) {
        lemma_segments_stand(s, t, by, end);
    }
}

/// A name is read alike.
proof fn lemma_name_stands(s: Seq<u8>, t: Seq<u8>, by: int, pos: int)
    requires
        stands_in(s, t, by),
        0 <= pos <= s.len(),
    ensures
        agree(parsed_name(s, pos), parsed_name(t, pos + by), by),
        parsed_name(s, pos) matches Ok((_, end)) ==> pos < end <= s.len(),
{
    let start = blanks_end(s, pos);
    lemma_blanks_stand(s, t, by, pos);
    lemma_blanks_end(s, pos);
    lemma_text_stands(s, t, by, start);
    lemma_name_advances(s, pos);
    if let Ok((_, end)) = parsed_string(s, start) {
        lemma_literal_end(s, start);
        lemma_literal_end(s, start + 1);
        lemma_blanks_stand(s, t, by, end);
    }
}

/// A caption is read alike.
proof fn lemma_caption_stands(s: Seq<u8>, t: Seq<u8>, by: int, pos: int)
    requires
        stands_in(s, t, by),
        0 <= pos <= s.len(),
    ensures
        agree(parsed_caption(s, pos), parsed_caption(t, pos + by), by),
        parsed_caption(s, pos) matches Ok((_, end)) ==> pos < end <= s.len(),
{
    let colon = blanks_end(s, pos);
    lemma_blanks_stand(s, t, by, pos);
    lemma_blanks_end(s, pos);
    lemma_caption_advances(s, pos);
    if colon < s.len() {
        assert(s[colon] == t[colon + by]);
        if s[colon] == 0x3A {
            let quote = blanks_end(s, colon + 1);
            lemma_blanks_stand(s, t, by, colon + 1);
            lemma_blanks_end(s, colon + 1);
            if quote < s.len() {
                assert(s[quote] == t[quote + by]);
                if s[quote] == 0x22 {
                    lemma_segments_stand(s, t, by, quote + 1);
                    let end = parsed_segments(s, quote + 1).1;
                    if end < s.len() {
                        assert(s[end] == t[end + by]);
                        lemma_blanks_stand(s, t, by, end + 1);
                    }
                }
            }
        }
    }
}

/// What follows a name stands as the name does: the caption, if there is
/// one, and the blanks and line ends after it.
proof fn lemma_tail_stands(s: Seq<u8>, t: Seq<u8>, by: int, after_name: int)
    requires
        stands_in(s, t, by),
        0 <= after_name <= s.len(),
    ensures
        ({
            let (caption, end) = optional(parsed_caption(s, after_name), after_name);
            let (other, far) = optional(parsed_caption(t, after_name + by), after_name + by);
            &&& other == caption
            &&& spaces_end(t, far) == moved(s, t, by, spaces_end(s, end))
            &&& after_name <= spaces_end(s, end) <= s.len()
        }),
{
    lemma_caption_stands(s, t, by, after_name);
    let (_, end) = optional(parsed_caption(s, after_name), after_name);
    lemma_spaces_stand(s, t, by, end);
}

/// A record is read alike, up to where its end lies in `t`.
proof fn lemma_element_parser_stands(s: Seq<u8>, t: Seq<u8>, by: int, pos: int, tag: u8)
    requires
        stands_in(s, t, by),
        0 <= pos < s.len(),
        spaces_end(s, pos) < s.len(),
    ensures
        match parsed_element_parser(s, pos, tag) {
            Ok(((name, caption, _), end)) => parsed_element_parser(t, pos + by, tag) matches Ok(
                ((other, label, _), far),
            ) && other == name && label == caption && far == moved(s, t, by, end),
            Err(_) => parsed_element_parser(t, pos + by, tag) is Err,
        },
{
    let start = spaces_end(s, pos);
    lemma_spaces_stand(s, t, by, pos);
    assert(s[start] == t[start + by]);
    if start + 1 < s.len() {
        assert(s[start + 1] == t[start + 1 + by]);
        lemma_name_stands(s, t, by, start + 2);
        if let Ok((_, after_name)) = parsed_name(s, start + 2) {
            lemma_tail_stands(s, t, by, after_name);
        }
    }
}

/// A relationship is read alike, up to where its end lies in `t`.
proof fn lemma_relation_ship_parser_stands(s: Seq<u8>, t: Seq<u8>, by: int, pos: int, head: u8)
    requires
        stands_in(s, t, by),
        0 <= pos < s.len(),
        spaces_end(s, pos) < s.len(),
        head != 0x0A,
    ensures
        match parsed_relation_ship_parser(s, pos, head) {
            Ok(((from, to, caption, _), end)) => parsed_relation_ship_parser(
                t,
                pos + by,
                head,
            ) matches Ok(((other_from, other_to, label, _), far)) && other_from == from
                && other_to == to && label == caption && far == moved(s, t, by, end),
            Err(_) => parsed_relation_ship_parser(t, pos + by, head) is Err,
        },
{
    let start = spaces_end(s, pos);
    lemma_spaces_stand(s, t, by, pos);
    lemma_name_stands(s, t, by, start);
    if let Ok((_, dash)) = parsed_name(s, start) {
        if dash < s.len() {
            assert(s[dash] == t[dash + by]);
        }
        if dash + 1 < s.len() {
            assert(s[dash + 1] == t[dash + 1 + by]);
            lemma_name_stands(s, t, by, dash + 2);
            if let Ok((_, after_name)) = parsed_name(s, dash + 2) {
                lemma_tail_stands(s, t, by, after_name);
            }
        }
    }
}

/// After blanks and line ends there is no blank and no line end.
proof fn lemma_spaces_end_is_fixed(t: Seq<u8>, pos: int)
    ensures
        spaces_end(t, spaces_end(t, pos)) == spaces_end(t, pos),
        blanks_end(t, spaces_end(t, pos)) == spaces_end(t, pos),
    decreases t.len() - pos,
{
    if 0 <= pos < t.len() && is_space(t[pos]) {
        lemma_spaces_end_is_fixed(t, pos + 1);
    }
}

/// A record stands where the input stands.
proof fn lemma_element_stands(s: Seq<u8>, t: Seq<u8>, by: int, start: int)
    requires
        stands_in(s, t, by),
        0 <= start < s.len(),
        spaces_end(s, start) == start,
    ensures
        agree_on_node(parsed_element(s, start), parsed_element(t, start + by), s, t, by),
        parsed_element(s, start) matches Ok((_, end)) ==> start < end <= s.len() && spaces_end(
            s,
            end,
        ) == end,
{
    lemma_spaces_stand(s, t, by, start);
    lemma_spaces_end_is_fixed(s, start);
    lemma_spaces_end_is_fixed(t, start + by);
    assert(blanks_end(s, start) == start);
    assert(blanks_end(t, start + by) == start + by);
    lemma_record_stands(s, t, by, start, 0x74);
    lemma_record_stands(s, t, by, start, 0x75);
    lemma_record_stands(s, t, by, start, 0x63);
    lemma_record_stands(s, t, by, start, 0x65);
    lemma_record_stands(s, t, by, start, 0x61);
    lemma_record_stands(s, t, by, start, 0x70);
    lemma_record_stands(s, t, by, start, 0x72);
}

/// A record with a given tag stands where the input stands, and ends after
/// blanks and line ends.
proof fn lemma_record_stands(s: Seq<u8>, t: Seq<u8>, by: int, start: int, tag: u8)
    requires
        stands_in(s, t, by),
        0 <= start < s.len(),
        spaces_end(s, start) == start,
    ensures
        match parsed_element_parser(s, start, tag) {
            Ok(((name, caption, _), end)) => {
                &&& parsed_element_parser(t, start + by, tag) matches Ok(((other, label, _), far))
                    && other == name && label == caption && far == moved(s, t, by, end)
                &&& start < end <= s.len()
                &&& blanks_end(s, end) == end
                &&& spaces_end(s, end) == end
                &&& blanks_end(t, moved(s, t, by, end)) == moved(s, t, by, end)
                &&& spaces_end(t, moved(s, t, by, end)) == moved(s, t, by, end)
            },
            Err(_) => parsed_element_parser(t, start + by, tag) is Err,
        },
{
    lemma_element_parser_stands(s, t, by, start, tag);
    lemma_element_parser_advances(s, start, tag);
    if let Ok((_, end)) = parsed_element_parser(s, start, tag) {
        if let Ok((_, after_name)) = parsed_name(s, start + 2) {
            let (_, before) = optional(parsed_caption(s, after_name), after_name);
            lemma_spaces_end_is_fixed(s, before);
        }
        lemma_end_is_fixed(s, t, by, start, end);
    }
}

/// A relationship with a given operator stands where the input stands, and
/// ends after blanks and line ends.
proof fn lemma_edge_stands(s: Seq<u8>, t: Seq<u8>, by: int, start: int, head: u8)
    requires
        stands_in(s, t, by),
        0 <= start < s.len(),
        spaces_end(s, start) == start,
        head != 0x0A,
    ensures
        match parsed_relation_ship_parser(s, start, head) {
            Ok(((from, to, caption, _), end)) => {
                &&& parsed_relation_ship_parser(t, start + by, head) matches Ok(
                    ((other_from, other_to, label, _), far),
                ) && other_from == from && other_to == to && label == caption && far == moved(
                    s,
                    t,
                    by,
                    end,
                )
                &&& start < end <= s.len()
                &&& blanks_end(s, end) == end
                &&& spaces_end(s, end) == end
                &&& blanks_end(t, moved(s, t, by, end)) == moved(s, t, by, end)
                &&& spaces_end(t, moved(s, t, by, end)) == moved(s, t, by, end)
            },
            Err(_) => parsed_relation_ship_parser(t, start + by, head) is Err,
        },
{
    lemma_relation_ship_parser_stands(s, t, by, start, head);
    lemma_relation_ship_parser_advances(s, start, head);
    if let Ok((_, end)) = parsed_relation_ship_parser(s, start, head) {
        if let Ok((_, dash)) = parsed_name(s, start) {
            if let Ok((_, after_name)) = parsed_name(s, dash + 2) {
                let (_, before) = optional(parsed_caption(s, after_name), after_name);
                lemma_spaces_end_is_fixed(s, before);
            }
        }
        lemma_end_is_fixed(s, t, by, start, end);
    }
}

/// A relationship stands where the input stands.
proof fn lemma_relation_ship_stands(s: Seq<u8>, t: Seq<u8>, by: int, start: int)
    requires
        stands_in(s, t, by),
        0 <= start < s.len(),
        spaces_end(s, start) == start,
    ensures
        agree_on_node(
            parsed_relation_ship(s, start),
            parsed_relation_ship(t, start + by),
            s,
            t,
            by,
        ),
        parsed_relation_ship(s, start) matches Ok((_, end)) ==> start < end <= s.len()
            && spaces_end(s, end) == end,
{
    lemma_spaces_stand(s, t, by, start);
    lemma_spaces_end_is_fixed(s, start);
    lemma_spaces_end_is_fixed(t, start + by);
    assert(blanks_end(s, start) == start);
    assert(blanks_end(t, start + by) == start + by);
    lemma_edge_stands(s, t, by, start, 0x2D);
    lemma_edge_stands(s, t, by, start, 0x3E);
}

/// A node stands where the input stands.
proof fn lemma_document_stands(s: Seq<u8>, t: Seq<u8>, by: int, pos: int)
    requires
        stands_in(s, t, by),
        0 <= pos < s.len(),
        spaces_end(s, pos) < s.len(),
    ensures
        agree_on_node(parsed_document(s, pos), parsed_document(t, pos + by), s, t, by),
{
    let start = spaces_end(s, pos);
    lemma_spaces_stand(s, t, by, pos);
    lemma_spaces_end_is_fixed(s, pos);
    lemma_element_stands(s, t, by, start);
    lemma_relation_ship_stands(s, t, by, start);
    if let Ok((_, end)) = or_else(parsed_element(s, start), parsed_relation_ship(s, start)) {
        lemma_end_is_fixed(s, t, by, start, end);
    }
}

/// The end of a node is a place after blanks and line ends, in `s` and where
/// it lies in `t`: no blank and no line end is skipped from it.
proof fn lemma_end_is_fixed(s: Seq<u8>, t: Seq<u8>, by: int, start: int, end: int)
    requires
        stands_in(s, t, by),
        0 <= start <= end <= s.len(),
        spaces_end(s, end) == end,
    ensures
        blanks_end(s, end) == end,
        blanks_end(t, moved(s, t, by, end)) == moved(s, t, by, end),
        spaces_end(t, moved(s, t, by, end)) == moved(s, t, by, end),
{
    lemma_spaces_end_is_fixed(s, end);
    lemma_spaces_end_is_fixed(t, s.len() + by);
    lemma_spaces_stand(s, t, by, end);
    lemma_spaces_end_is_fixed(t, end + by);
}

/// Blanks and line ends before the first node change nothing in what is
/// read.
proof fn lemma_documents_skip(t: Seq<u8>, pos: int)
    ensures
        parsed_documents(t, pos).0 == parsed_documents(t, spaces_end(t, pos)).0,
        spaces_end(t, parsed_documents(t, pos).1) == spaces_end(
            t,
            parsed_documents(t, spaces_end(t, pos)).1,
        ),
{
    let start = spaces_end(t, pos);
    lemma_spaces_end_is_fixed(t, pos);
    assert(parsed_document(t, pos) == parsed_document(t, start));
}

/// Where only blanks and line ends are left, no node is read.
proof fn lemma_no_document_at_end(s: Seq<u8>, pos: int)
    requires
        spaces_end(s, pos) >= s.len(),
    ensures
        parsed_document(s, pos) is Err,
        parsed_documents(s, pos).0 == Seq::<AstView>::empty(),
        parsed_documents(s, pos).1 == pos,
{
    let start = spaces_end(s, pos);
    lemma_spaces_end_is_fixed(s, pos);
    assert(parsed_document(s, pos) == parsed_document(s, start));
    lemma_document_advances(s, start);
    lemma_document_advances(s, pos);
    lemma_spaces_end(s, pos);
}

/// The nodes of an input that is read to its end are read where the input
/// stands in a longer one, and after them the nodes that follow it there.
proof fn lemma_documents_stand(s: Seq<u8>, t: Seq<u8>, by: int, pos: int)
    requires
        stands_in(s, t, by),
        0 <= pos <= s.len(),
        spaces_end(s, parsed_documents(s, pos).1) == s.len(),
    ensures
        parsed_documents(t, pos + by).0 == parsed_documents(s, pos).0 + parsed_documents(
            t,
            s.len() + by,
        ).0,
        spaces_end(t, parsed_documents(t, pos + by).1) == spaces_end(
            t,
            parsed_documents(t, s.len() + by).1,
        ),
    decreases s.len() - pos,
{
    let start = spaces_end(s, pos);
    let rest = parsed_documents(t, s.len() + by).0;
    lemma_spaces_stand(s, t, by, pos);
    if start < s.len() {
        lemma_document_stands(s, t, by, pos);
        lemma_document_advances(s, pos);
        match parsed_document(s, pos) {
            Ok(((node, _), end)) => {
                let far = moved(s, t, by, end);
                assert(parsed_documents(s, pos).0 == seq![node] + parsed_documents(s, end).0);
                assert(parsed_documents(t, pos + by).0 == seq![node] + parsed_documents(t, far).0);
                if end < s.len() {
                    lemma_documents_stand(s, t, by, end);
                    assert(seq![node] + (parsed_documents(s, end).0 + rest) =~= (seq![node]
                        + parsed_documents(s, end).0) + rest);
                } else {
                    lemma_spaces_end(s, end);
                    lemma_no_document_at_end(s, end);
                    lemma_documents_skip(t, s.len() + by);
                    assert(seq![node] + rest =~= (seq![node] + Seq::<AstView>::empty()) + rest);
                }
            },
            Err(_) => {},
        }
    } else {
        lemma_no_document_at_end(s, pos);
        lemma_documents_skip(t, pos + by);
        lemma_documents_skip(t, s.len() + by);
        assert(Seq::<AstView>::empty() + rest =~= rest);
    }
}

/// The nodes of two inputs joined by a line feed are the nodes of the first
/// followed by the nodes of the second: where both inputs are documents, the
/// joined input is a document, and none of their nodes is lost, merged, moved
/// or changed in it.
pub proof fn law_joined_inputs(
    first: Seq<u8>,
    second: Seq<u8>,
    first_nodes: Seq<AstView>,
    second_nodes: Seq<AstView>,
)
    requires
        parsed(first) == Ok::<AstView, Failure>(AstView::Documents(first_nodes)),
        parsed(second) == Ok::<AstView, Failure>(AstView::Documents(second_nodes)),
    ensures
        parsed(first + seq![0x0Au8] + second) == Ok::<AstView, Failure>(
            AstView::Documents(first_nodes + second_nodes),
        ),
{
    let joined = first + seq![0x0Au8] + second;
    let by = first.len() as int + 1;
    assert(stands_in(first, joined, 0));
    assert(stands_in(second, joined, by)) by {
        assert forall|i: int| 0 <= i < second.len() implies #[trigger] second[i] == joined[i
            + by] by {}
    }
    lemma_documents_stand(first, joined, 0, 0);
    lemma_documents_skip(joined, first.len() as int);
    lemma_documents_skip(joined, by);
    assert(spaces_end(joined, first.len() as int) == spaces_end(joined, by));
    lemma_documents_stand(second, joined, by, 0);
    lemma_no_document_at_end(joined, joined.len() as int);
    assert(second_nodes + Seq::<AstView>::empty() =~= second_nodes);
}

} // verus!
