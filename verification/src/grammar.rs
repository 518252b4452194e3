//! The grammar of event model documents, stated over the bytes of the input.
//!
//! Every rule is a function from the input and a position in it to what the
//! rule reads there: a value and the position after it, or the failure that
//! stops it. A rule that fails has read nothing, so the rule tried next starts
//! from the same position.
//!
//! ```text
//! documents    := document*
//! document     := spaces (element | relation_ship) spaces
//! element      := blanks (title | user | command | event | aggregate | policy | read_model) blanks
//! title, ...   := spaces tag ':' name caption? spaces       tag: t u c e a p r
//! relation_ship:= blanks (line | arrow) blanks
//! line         := spaces name '-' '-' name caption? spaces
//! arrow        := spaces name '-' '>' name caption? spaces
//! name         := blanks string blanks
//! string       := '"' chars '"' | chars
//! caption      := blanks ':' caption_string
//! caption_string := blanks utf16_string blanks
//! utf16_string := '"' (chars | utf16_chars)* '"'
//! chars        := literal+                    and the bytes read are valid UTF-8
//! literal      := a byte other than \ " : - and line feed
//!               | '\' followed by one of \ / " b f n r t
//! utf16_chars  := ('\' 'u' hex hex hex hex)+
//! blanks       := (' ' | tab)*
//! spaces       := (' ' | tab | carriage return | line feed)*
//! ```
//!
//! Repetitions take as much as they can. A literal therefore runs on to the
//! next delimiter, over the blanks inside it and after it. A name that is not
//! quoted is that run without the spaces, tabs and carriage returns at its
//! end: `abc -> def` joins `abc` and `def`. Between quotes nothing is cut.
//!
//! A name is never empty. Quotes around a name are optional; the same bytes
//! are delimiters inside the quotes and outside them. A caption is always
//! quoted, and only a caption reads UTF-16 escapes. A caption that does not
//! fit the rule is no caption: the record or relationship ends before its
//! colon. The failure of that caption is kept beside the node.
//!
//! An input is a document when nothing but blanks and line ends is left
//! after its nodes. The failure of an input that is none is the furthest
//! failure that the parse has met: the failure of the node that could not be
//! read or, where that got further, of a caption that was tried and left out,
//! with everything that was expected where it stopped.

use crate::ast::name_type::NameType;
use crate::ast::{ArrowView, AstView, LineView, NameView};
use crate::parse_error::{Expectations, Failure};
use crate::text::utf16_text;
use vstd::prelude::*;
use vstd::utf8::{decode_utf8, valid_utf8};

verus! {

/// What a rule reads: a value and the position after it, or a failure.
pub type Parsed<T> = Result<(T, int), Failure>;

/// The failure at `position` with the expectations `expected`.
pub open spec fn failure(position: int, expected: Expectations) -> Failure {
    Failure { position, expected }
}

/// Ordered choice: what `first` reads, else what `second` reads, else the
/// failure of the two that got further.
pub open spec fn or_else<T>(first: Parsed<T>, second: Parsed<T>) -> Parsed<T> {
    match first {
        Ok(_) => first,
        Err(first_failure) => match second {
            Ok(_) => second,
            Err(second_failure) => Err(first_failure.furthest(second_failure)),
        },
    }
}

/// A space or a tab.
pub open spec fn is_blank(byte: u8) -> bool {
    byte == 0x20 || byte == 0x09
}

/// A space, a tab, a carriage return or a line feed.
pub open spec fn is_space(byte: u8) -> bool {
    is_blank(byte) || byte == 0x0D || byte == 0x0A
}

/// The position after the blanks that begin at `pos`.
pub open spec fn blanks_end(s: Seq<u8>, pos: int) -> int
    decreases s.len() - pos,
{
    if 0 <= pos < s.len() && is_blank(s[pos]) {
        blanks_end(s, pos + 1)
    } else {
        pos
    }
}

/// The position after the blanks and line ends that begin at `pos`.
pub open spec fn spaces_end(s: Seq<u8>, pos: int) -> int
    decreases s.len() - pos,
{
    if 0 <= pos < s.len() && is_space(s[pos]) {
        spaces_end(s, pos + 1)
    } else {
        pos
    }
}

/// A byte that stands for itself in a literal: any but the backslash, the
/// double quote, the colon, the dash and the line feed.
pub open spec fn is_plain(byte: u8) -> bool {
    byte != 0x5C && byte != 0x22 && byte != 0x3A && byte != 0x2D && byte != 0x0A
}

/// The byte that a backslash followed by `byte` stands for, if that is an
/// escape: `\\ \/ \" \b \f \n \r \t`.
pub open spec fn escape_value(byte: u8) -> Option<u8> {
    if byte == 0x5C {
        Some(0x5Cu8)
    } else if byte == 0x2F {
        Some(0x2Fu8)
    } else if byte == 0x22 {
        Some(0x22u8)
    } else if byte == 0x62 {
        Some(0x08u8)
    } else if byte == 0x66 {
        Some(0x0Cu8)
    } else if byte == 0x6E {
        Some(0x0Au8)
    } else if byte == 0x72 {
        Some(0x0Du8)
    } else if byte == 0x74 {
        Some(0x09u8)
    } else {
        None
    }
}

/// The number of bytes of the literal character at `pos`: 1 for a plain byte,
/// 2 for an escape, 0 where there is neither.
pub open spec fn literal_width(s: Seq<u8>, pos: int) -> int {
    if 0 <= pos < s.len() && is_plain(s[pos]) {
        1
    } else if 0 <= pos && pos + 1 < s.len() && s[pos] == 0x5C && escape_value(s[pos + 1]) is Some {
        2
    } else {
        0
    }
}

/// The byte that the literal character at `pos` stands for.
pub open spec fn literal_byte(s: Seq<u8>, pos: int) -> u8
    recommends
        literal_width(s, pos) > 0,
{
    if literal_width(s, pos) == 2 {
        escape_value(s[pos + 1])->0
    } else {
        s[pos]
    }
}

/// The position after the literal characters that begin at `pos`.
pub open spec fn literal_end(s: Seq<u8>, pos: int) -> int
    decreases s.len() - pos,
{
    if literal_width(s, pos) > 0 {
        literal_end(s, pos + literal_width(s, pos))
    } else {
        pos
    }
}

/// The bytes that the literal characters that begin at `pos` stand for.
pub open spec fn literal_bytes(s: Seq<u8>, pos: int) -> Seq<u8>
    decreases s.len() - pos,
{
    if literal_width(s, pos) > 0 {
        seq![literal_byte(s, pos)] + literal_bytes(s, pos + literal_width(s, pos))
    } else {
        Seq::empty()
    }
}

/// One or more literal characters, as text. Fails where there is none, and
/// where the bytes they stand for are not valid UTF-8.
pub open spec fn parsed_chars(s: Seq<u8>, pos: int) -> Parsed<Seq<char>> {
    if literal_width(s, pos) == 0 {
        Err(failure(pos, Expectations::only_text()))
    } else if !valid_utf8(literal_bytes(s, pos)) {
        Err(failure(pos, Expectations::only_utf8()))
    } else {
        Ok((decode_utf8(literal_bytes(s, pos)), literal_end(s, pos)))
    }
}

/// A hexadecimal digit in ASCII.
pub open spec fn is_hex_digit(byte: u8) -> bool {
    (0x30 <= byte <= 0x39) || (0x41 <= byte <= 0x46) || (0x61 <= byte <= 0x66)
}

/// The value of a hexadecimal digit.
pub open spec fn hex_value(byte: u8) -> int
    recommends
        is_hex_digit(byte),
{
    if 0x30 <= byte <= 0x39 {
        byte - 0x30
    } else if 0x41 <= byte <= 0x46 {
        byte - 0x41 + 10
    } else {
        byte - 0x61 + 10
    }
}

/// How many of the `limit` bytes from `pos` on are hexadecimal digits, counted
/// up to the first that is not.
pub open spec fn hex_digits(s: Seq<u8>, pos: int, limit: nat) -> nat
    decreases limit,
{
    if limit > 0 && 0 <= pos < s.len() && is_hex_digit(s[pos]) {
        1 + hex_digits(s, pos + 1, (limit - 1) as nat)
    } else {
        0
    }
}

/// The UTF-16 code unit that the escape `\uXXXX` at `pos` names. Fails at
/// `pos` where no `\u` stands, and at the first of the four bytes after it
/// that is no hexadecimal digit.
pub open spec fn parsed_unicode_escape(s: Seq<u8>, pos: int) -> Parsed<u16> {
    if !(0 <= pos && pos + 1 < s.len() && s[pos] == 0x5C && s[pos + 1] == 0x75) {
        Err(failure(pos, Expectations::only_unicode_escape()))
    } else if hex_digits(s, pos + 2, 4) < 4 {
        Err(failure(pos + 2 + hex_digits(s, pos + 2, 4), Expectations::only_hex_digit()))
    } else {
        Ok(
            (
                (hex_value(s[pos + 2]) * 0x1000 + hex_value(s[pos + 3]) * 0x100 + hex_value(
                    s[pos + 4],
                ) * 0x10 + hex_value(s[pos + 5])) as u16,
                pos + 6,
            ),
        )
    }
}

/// The position after the UTF-16 escapes that begin at `pos`.
pub open spec fn escapes_end(s: Seq<u8>, pos: int) -> int
    decreases s.len() - pos,
    via escapes_end_decreases
{
    if parsed_unicode_escape(s, pos) is Ok {
        escapes_end(s, pos + 6)
    } else {
        pos
    }
}

/// The code units of the UTF-16 escapes that begin at `pos`.
pub open spec fn escape_units(s: Seq<u8>, pos: int) -> Seq<u16>
    decreases s.len() - pos,
    via escape_units_decreases
{
    match parsed_unicode_escape(s, pos) {
        Ok((unit, _)) => seq![unit] + escape_units(s, pos + 6),
        Err(_) => Seq::empty(),
    }
}

#[via_fn]
proof fn escapes_end_decreases(s: Seq<u8>, pos: int) {
    lemma_hex_digits(s, pos + 2, 4);
}

#[via_fn]
proof fn escape_units_decreases(s: Seq<u8>, pos: int) {
    lemma_hex_digits(s, pos + 2, 4);
}

/// One or more UTF-16 escapes, as the text that their code units encode.
pub open spec fn parsed_utf16_chars(s: Seq<u8>, pos: int) -> Parsed<Seq<char>> {
    match parsed_unicode_escape(s, pos) {
        Ok(_) => Ok((utf16_text(escape_units(s, pos), 0), escapes_end(s, pos))),
        Err(stop) => Err(stop),
    }
}

/// A byte that is cut from the end of a bare literal: a space, a tab or a
/// carriage return.
pub open spec fn is_trailing_blank(byte: u8) -> bool {
    byte == 0x20 || byte == 0x09 || byte == 0x0D
}

/// The length of `bytes` without the spaces, tabs and carriage returns at
/// their end.
pub open spec fn trimmed_len(bytes: Seq<u8>) -> nat
    decreases bytes.len(),
{
    if bytes.len() > 0 && is_trailing_blank(bytes.last()) {
        trimmed_len(bytes.drop_last())
    } else {
        bytes.len()
    }
}

/// `bytes` without the spaces, tabs and carriage returns at their end.
pub open spec fn trimmed(bytes: Seq<u8>) -> Seq<u8> {
    bytes.take(trimmed_len(bytes) as int)
}

/// A bare literal: a run of literal characters, read as text without the
/// spaces, tabs and carriage returns at its end. The position after it is the
/// position after the whole run. Fails at `pos` where nothing is left of the
/// run, and where what is left is not valid UTF-8.
pub open spec fn parsed_bare(s: Seq<u8>, pos: int) -> Parsed<Seq<char>> {
    let bytes = trimmed(literal_bytes(s, pos));
    if bytes.len() == 0 {
        Err(failure(pos, Expectations::only_text().union(Expectations::only_quote())))
    } else if !valid_utf8(bytes) {
        Err(failure(pos, Expectations::only_utf8()))
    } else {
        Ok((decode_utf8(bytes), literal_end(s, pos)))
    }
}

/// A literal, in double quotes or bare.
pub open spec fn parsed_string(s: Seq<u8>, pos: int) -> Parsed<Seq<char>> {
    if 0 <= pos < s.len() && s[pos] == 0x22 {
        match parsed_chars(s, pos + 1) {
            Ok((text, end)) => if 0 <= end < s.len() && s[end] == 0x22 {
                Ok((text, end + 1))
            } else {
                Err(failure(end, Expectations::only_quote()))
            },
            Err(stop) => Err(stop),
        }
    } else {
        parsed_bare(s, pos)
    }
}

/// The text between the quotes of a caption, from `pos` on: runs of literal
/// characters and runs of UTF-16 escapes, as many as there are. With the text
/// come the position after the last run and the failure that ends the
/// repetition there.
pub open spec fn parsed_segments(s: Seq<u8>, pos: int) -> (Seq<char>, int, Failure)
    decreases s.len() - pos,
    via parsed_segments_decreases
{
    match or_else(parsed_chars(s, pos), parsed_utf16_chars(s, pos)) {
        Ok((text, end)) => {
            let (rest, last, stop) = parsed_segments(s, end);
            (text + rest, last, stop)
        },
        Err(stop) => (Seq::empty(), pos, stop),
    }
}

#[via_fn]
proof fn parsed_segments_decreases(s: Seq<u8>, pos: int) {
    lemma_literal_end(s, pos);
    lemma_escapes_end(s, pos);
}

/// The text of a caption: a double quote, runs of literal characters and of
/// UTF-16 escapes, and a double quote. Where the closing quote is missing, the
/// failure also says what else could have gone on there.
pub open spec fn parsed_utf16_string(s: Seq<u8>, pos: int) -> Parsed<Seq<char>> {
    if !(0 <= pos < s.len() && s[pos] == 0x22) {
        Err(failure(pos, Expectations::only_quote()))
    } else {
        let (text, end, stop) = parsed_segments(s, pos + 1);
        if 0 <= end < s.len() && s[end] == 0x22 {
            Ok((text, end + 1))
        } else {
            Err(stop.furthest(failure(end, Expectations::only_quote())))
        }
    }
}

/// What `rule` read, and the position after the blanks that follow it.
pub open spec fn then_blanks<T>(s: Seq<u8>, rule: Parsed<T>) -> Parsed<T> {
    match rule {
        Ok((value, end)) => Ok((value, blanks_end(s, end))),
        Err(stop) => Err(stop),
    }
}

/// What `rule` read, and the position after the blanks and line ends that
/// follow it.
pub open spec fn then_spaces<T>(s: Seq<u8>, rule: Parsed<T>) -> Parsed<T> {
    match rule {
        Ok((value, end)) => Ok((value, spaces_end(s, end))),
        Err(stop) => Err(stop),
    }
}

/// What an optional `rule` gives from `pos`: its value and the position after
/// it, or nothing and `pos`.
pub open spec fn optional<T>(rule: Parsed<T>, pos: int) -> (Option<T>, int) {
    match rule {
        Ok((value, end)) => (Some(value), end),
        Err(_) => (None, pos),
    }
}

/// What is kept of an optional `rule` that was tried and left out: its
/// failure, or nothing where it was read.
pub open spec fn dropped<T>(rule: Parsed<T>) -> Option<Failure> {
    match rule {
        Ok(_) => None,
        Err(stop) => Some(stop),
    }
}

/// The failure that got further: `stop`, or the failure `kept` of a rule that
/// was left out earlier.
pub open spec fn with_dropped(kept: Option<Failure>, stop: Failure) -> Failure {
    match kept {
        Some(earlier) => earlier.furthest(stop),
        None => stop,
    }
}

/// A name: a literal, quoted or bare, with blanks before and after it.
pub open spec fn parsed_name(s: Seq<u8>, pos: int) -> Parsed<Seq<char>> {
    then_blanks(s, parsed_string(s, blanks_end(s, pos)))
}

/// The text of a caption with blanks before and after it.
pub open spec fn parsed_caption_string(s: Seq<u8>, pos: int) -> Parsed<Seq<char>> {
    then_blanks(s, parsed_utf16_string(s, blanks_end(s, pos)))
}

/// A caption: a colon and the quoted text after it.
pub open spec fn parsed_caption(s: Seq<u8>, pos: int) -> Parsed<Seq<char>> {
    let colon = blanks_end(s, pos);
    if 0 <= colon < s.len() && s[colon] == 0x3A {
        parsed_caption_string(s, colon + 1)
    } else {
        Err(failure(colon, Expectations::only_colon()))
    }
}

/// A record with the tag `tag`: the tag, a colon, a name and, if one follows,
/// a caption. Gives the name, the caption, and the failure of the caption
/// where it was tried and left out.
pub open spec fn parsed_element_parser(s: Seq<u8>, pos: int, tag: u8) -> Parsed<
    (Seq<char>, Option<Seq<char>>, Option<Failure>),
> {
    let start = spaces_end(s, pos);
    if !(0 <= start < s.len() && s[start] == tag) {
        Err(failure(start, Expectations::only_tag()))
    } else if !(start + 1 < s.len() && s[start + 1] == 0x3A) {
        Err(failure(start + 1, Expectations::only_colon()))
    } else {
        match parsed_name(s, start + 2) {
            Ok((name, after_name)) => {
                let (caption, end) = optional(parsed_caption(s, after_name), after_name);
                Ok(((name, caption, dropped(parsed_caption(s, after_name))), spaces_end(s, end)))
            },
            Err(stop) => Err(stop),
        }
    }
}

/// The declaration of a named element of the kind `name_type`, written with
/// the tag `tag`.
pub open spec fn parsed_declaration(s: Seq<u8>, pos: int, tag: u8, name_type: NameType) -> Parsed<
    (AstView, Option<Failure>),
> {
    match parsed_element_parser(s, pos, tag) {
        Ok(((name, caption, kept), end)) => Ok(
            ((AstView::NameDef(NameView { name_type, name, caption }), kept), end),
        ),
        Err(stop) => Err(stop),
    }
}

/// A title: `t:<name>` and an optional caption.
pub open spec fn parsed_title(s: Seq<u8>, pos: int) -> Parsed<(AstView, Option<Failure>)> {
    match parsed_element_parser(s, pos, 0x74) {
        Ok(((name, caption, kept), end)) => Ok(
            (
                (AstView::TitleDef(NameView { name_type: NameType::Title, name, caption }), kept),
                end,
            ),
        ),
        Err(stop) => Err(stop),
    }
}

/// A user: `u:<name>` and an optional caption.
pub open spec fn parsed_user(s: Seq<u8>, pos: int) -> Parsed<(AstView, Option<Failure>)> {
    parsed_declaration(s, pos, 0x75, NameType::User)
}

/// A command: `c:<name>` and an optional caption.
pub open spec fn parsed_command(s: Seq<u8>, pos: int) -> Parsed<(AstView, Option<Failure>)> {
    parsed_declaration(s, pos, 0x63, NameType::Command)
}

/// An event: `e:<name>` and an optional caption.
pub open spec fn parsed_event(s: Seq<u8>, pos: int) -> Parsed<(AstView, Option<Failure>)> {
    parsed_declaration(s, pos, 0x65, NameType::Event)
}

/// An aggregate: `a:<name>` and an optional caption.
pub open spec fn parsed_aggregate(s: Seq<u8>, pos: int) -> Parsed<(AstView, Option<Failure>)> {
    parsed_declaration(s, pos, 0x61, NameType::Aggregate)
}

/// A policy: `p:<name>` and an optional caption.
pub open spec fn parsed_policy(s: Seq<u8>, pos: int) -> Parsed<(AstView, Option<Failure>)> {
    parsed_declaration(s, pos, 0x70, NameType::Policy)
}

/// A read model: `r:<name>` and an optional caption.
pub open spec fn parsed_read_model(s: Seq<u8>, pos: int) -> Parsed<(AstView, Option<Failure>)> {
    parsed_declaration(s, pos, 0x72, NameType::ReadModel)
}

/// A record of any of the seven kinds, with blanks before and after it.
pub open spec fn parsed_element(s: Seq<u8>, pos: int) -> Parsed<(AstView, Option<Failure>)> {
    let start = blanks_end(s, pos);
    then_blanks(
        s,
        or_else(
            parsed_title(s, start),
            or_else(
                parsed_user(s, start),
                or_else(
                    parsed_command(s, start),
                    or_else(
                        parsed_event(s, start),
                        or_else(
                            parsed_aggregate(s, start),
                            or_else(parsed_policy(s, start), parsed_read_model(s, start)),
                        ),
                    ),
                ),
            ),
        ),
    )
}

/// A relationship whose operator is a dash followed by `head`: a name, the
/// operator, a name and, if one follows, a caption. Gives the two names, the
/// caption, and the failure of the caption where it was tried and left out.
pub open spec fn parsed_relation_ship_parser(s: Seq<u8>, pos: int, head: u8) -> Parsed<
    (Seq<char>, Seq<char>, Option<Seq<char>>, Option<Failure>),
> {
    match parsed_name(s, spaces_end(s, pos)) {
        Ok((from, dash)) => if !(0 <= dash < s.len() && s[dash] == 0x2D) {
            Err(failure(dash, Expectations::only_operator()))
        } else if !(dash + 1 < s.len() && s[dash + 1] == head) {
            Err(failure(dash + 1, Expectations::only_operator()))
        } else {
            match parsed_name(s, dash + 2) {
                Ok((to, after_name)) => {
                    let (caption, end) = optional(parsed_caption(s, after_name), after_name);
                    Ok(
                        (
                            (from, to, caption, dropped(parsed_caption(s, after_name))),
                            spaces_end(s, end),
                        ),
                    )
                },
                Err(stop) => Err(stop),
            }
        },
        Err(stop) => Err(stop),
    }
}

/// An arrow: `<name>-><name>` and an optional caption.
pub open spec fn parsed_arrow(s: Seq<u8>, pos: int) -> Parsed<(AstView, Option<Failure>)> {
    match parsed_relation_ship_parser(s, pos, 0x3E) {
        Ok(((from_ref, to_ref, caption, kept), end)) => Ok(
            ((AstView::Arrow(ArrowView { from_ref, to_ref, caption }), kept), end),
        ),
        Err(stop) => Err(stop),
    }
}

/// A line: `<name>--<name>` and an optional caption.
pub open spec fn parsed_line(s: Seq<u8>, pos: int) -> Parsed<(AstView, Option<Failure>)> {
    match parsed_relation_ship_parser(s, pos, 0x2D) {
        Ok(((from_ref, to_ref, caption, kept), end)) => Ok(
            ((AstView::Line(LineView { from_ref, to_ref, caption }), kept), end),
        ),
        Err(stop) => Err(stop),
    }
}

/// A relationship, read as a line and, where that fails, as an arrow, with
/// blanks before and after it.
pub open spec fn parsed_relation_ship(s: Seq<u8>, pos: int) -> Parsed<(AstView, Option<Failure>)> {
    let start = blanks_end(s, pos);
    then_blanks(s, or_else(parsed_line(s, start), parsed_arrow(s, start)))
}

/// One node of a document: a record and, where that fails, a relationship,
/// with blanks and line ends before and after it.
pub open spec fn parsed_document(s: Seq<u8>, pos: int) -> Parsed<(AstView, Option<Failure>)> {
    let start = spaces_end(s, pos);
    then_spaces(s, or_else(parsed_element(s, start), parsed_relation_ship(s, start)))
}

/// The nodes that can be read one after another from `pos` on, the position
/// after the last of them, and the furthest failure met on the way: that of
/// the node that ends the repetition or, where it got further, that of a
/// caption that was tried and left out.
pub open spec fn parsed_documents(s: Seq<u8>, pos: int) -> (Seq<AstView>, int, Failure)
    decreases s.len() - pos,
    via parsed_documents_decreases
{
    match parsed_document(s, pos) {
        Ok(((node, kept), end)) => {
            let (rest, last, stop) = parsed_documents(s, end);
            (seq![node] + rest, last, with_dropped(kept, stop))
        },
        Err(stop) => (Seq::empty(), pos, stop),
    }
}

#[via_fn]
proof fn parsed_documents_decreases(s: Seq<u8>, pos: int) {
    lemma_document_advances(s, pos);
}

/// A whole input: the nodes read from its start, if after them only blanks and
/// line ends are left. Otherwise the furthest failure met on the way.
pub open spec fn parsed(s: Seq<u8>) -> Result<AstView, Failure> {
    let (nodes, end, stop) = parsed_documents(s, 0);
    if spaces_end(s, end) == s.len() {
        Ok(AstView::Documents(nodes))
    } else {
        Err(stop)
    }
}

/// A run of literal characters ends inside the input, and after its start
/// where there is a literal character.
pub proof fn lemma_literal_end(s: Seq<u8>, pos: int)
    ensures
        literal_width(s, pos) > 0 ==> pos < literal_end(s, pos) <= s.len(),
        literal_width(s, pos) == 0 ==> literal_end(s, pos) == pos,
        literal_width(s, literal_end(s, pos)) == 0,
    decreases s.len() - pos,
{
    if literal_width(s, pos) > 0 {
        lemma_literal_end(s, pos + literal_width(s, pos));
    }
}

/// A run of UTF-16 escapes ends inside the input, and after its start where
/// there is an escape.
pub proof fn lemma_escapes_end(s: Seq<u8>, pos: int)
    ensures
        parsed_unicode_escape(s, pos) is Ok ==> pos < escapes_end(s, pos) <= s.len(),
        parsed_unicode_escape(s, pos) is Err ==> escapes_end(s, pos) == pos,
        parsed_unicode_escape(s, escapes_end(s, pos)) is Err,
    decreases s.len() - pos,
{
    if parsed_unicode_escape(s, pos) is Ok {
        lemma_hex_digits(s, pos + 2, 4);
        lemma_escapes_end(s, pos + 6);
    }
}

/// The hexadecimal digits counted from `pos` are there, inside the input.
pub proof fn lemma_hex_digits(s: Seq<u8>, pos: int, limit: nat)
    ensures
        hex_digits(s, pos, limit) <= limit,
        hex_digits(s, pos, limit) > 0 ==> 0 <= pos && pos + hex_digits(s, pos, limit) <= s.len(),
        forall|i: int|
            pos <= i < pos + hex_digits(s, pos, limit) ==> is_hex_digit(#[trigger] s[i]),
        hex_digits(s, pos, limit) < limit && 0 <= pos + hex_digits(s, pos, limit) < s.len()
            ==> !is_hex_digit(s[pos + hex_digits(s, pos, limit)]),
    decreases limit,
{
    if limit > 0 && 0 <= pos < s.len() && is_hex_digit(s[pos]) {
        lemma_hex_digits(s, pos + 1, (limit - 1) as nat);
    }
}

/// Blanks end at or after their start, inside the input.
pub proof fn lemma_blanks_end(s: Seq<u8>, pos: int)
    ensures
        pos <= blanks_end(s, pos),
        pos <= s.len() ==> blanks_end(s, pos) <= s.len(),
        0 <= blanks_end(s, pos) < s.len() ==> !is_blank(s[blanks_end(s, pos)]),
    decreases s.len() - pos,
{
    if 0 <= pos < s.len() && is_blank(s[pos]) {
        lemma_blanks_end(s, pos + 1);
    }
}

/// Blanks and line ends end at or after their start, inside the input.
pub proof fn lemma_spaces_end(s: Seq<u8>, pos: int)
    ensures
        pos <= spaces_end(s, pos),
        pos <= s.len() ==> spaces_end(s, pos) <= s.len(),
        0 <= spaces_end(s, pos) < s.len() ==> !is_space(s[spaces_end(s, pos)]),
    decreases s.len() - pos,
{
    if 0 <= pos < s.len() && is_space(s[pos]) {
        lemma_spaces_end(s, pos + 1);
    }
}

/// A run of literal characters that is read as text is not empty.
pub proof fn lemma_chars_not_empty(s: Seq<u8>, pos: int)
    ensures
        parsed_chars(s, pos) matches Ok((text, _)) ==> text.len() > 0,
{
    if parsed_chars(s, pos) is Ok {
        let bytes = literal_bytes(s, pos);
        assert(bytes.len() > 0);
        assert(decode_utf8(bytes).len() > 0);
    }
}

/// A bare literal that is read is not empty, and takes at least one byte.
pub proof fn lemma_bare_not_empty(s: Seq<u8>, pos: int)
    ensures
        parsed_bare(s, pos) matches Ok((text, end)) ==> text.len() > 0 && 0 <= pos < end
            <= s.len(),
{
    if parsed_bare(s, pos) is Ok {
        let bytes = trimmed(literal_bytes(s, pos));
        assert(bytes.len() > 0);
        assert(decode_utf8(bytes).len() > 0);
        lemma_literal_end(s, pos);
    }
}

/// What is left of bytes without the blanks at their end: the first bytes
/// of them, none but blanks cut, and no blank at the end of what is left.
pub proof fn lemma_trimmed(bytes: Seq<u8>)
    ensures
        trimmed_len(bytes) <= bytes.len(),
        forall|i: int| trimmed_len(bytes) <= i < bytes.len() ==> is_trailing_blank(bytes[i]),
        trimmed_len(bytes) > 0 ==> !is_trailing_blank(bytes[trimmed_len(bytes) - 1]),
    decreases bytes.len(),
{
    if bytes.len() > 0 && is_trailing_blank(bytes.last()) {
        let head = bytes.drop_last();
        lemma_trimmed(head);
        assert forall|i: int| trimmed_len(bytes) <= i < bytes.len() implies is_trailing_blank(
            bytes[i],
        ) by {
            if i < head.len() {
                assert(head[i] == bytes[i]);
            }
        }
        assert(trimmed_len(bytes) > 0 ==> head[trimmed_len(bytes) - 1] == bytes[trimmed_len(bytes)
            - 1]);
    }
}

/// A name that is read is not empty.
pub proof fn lemma_name_not_empty(s: Seq<u8>, pos: int)
    ensures
        parsed_name(s, pos) matches Ok((text, _)) ==> text.len() > 0,
{
    let start = blanks_end(s, pos);
    lemma_bare_not_empty(s, start);
    lemma_chars_not_empty(s, start + 1);
}

/// A name that is read takes at least one byte and ends inside the input.
pub proof fn lemma_name_advances(s: Seq<u8>, pos: int)
    ensures
        parsed_name(s, pos) matches Ok((_, end)) ==> 0 <= pos < end <= s.len(),
{
    let start = blanks_end(s, pos);
    lemma_blanks_end(s, pos);
    lemma_bare_not_empty(s, start);
    lemma_literal_end(s, start + 1);
    if let Ok((_, end)) = parsed_string(s, start) {
        lemma_blanks_end(s, end);
    }
}

/// A caption that is read takes at least one byte and ends inside the input.
pub proof fn lemma_caption_advances(s: Seq<u8>, pos: int)
    ensures
        parsed_caption(s, pos) matches Ok((_, end)) ==> 0 <= pos < end <= s.len(),
{
    let colon = blanks_end(s, pos);
    lemma_blanks_end(s, pos);
    let quote = blanks_end(s, colon + 1);
    lemma_blanks_end(s, colon + 1);
    lemma_segments_end(s, quote + 1);
    if let Ok((_, end)) = parsed_utf16_string(s, quote) {
        lemma_blanks_end(s, end);
    }
}

/// The runs between the quotes of a caption end at or after their start,
/// inside the input.
pub proof fn lemma_segments_end(s: Seq<u8>, pos: int)
    ensures
        pos <= parsed_segments(s, pos).1,
        pos <= s.len() ==> parsed_segments(s, pos).1 <= s.len(),
    decreases s.len() - pos,
{
    lemma_literal_end(s, pos);
    lemma_escapes_end(s, pos);
    if let Ok((_, end)) = or_else(parsed_chars(s, pos), parsed_utf16_chars(s, pos)) {
        lemma_segments_end(s, end);
    }
}

/// A record that is read takes at least one byte and ends inside the input.
pub proof fn lemma_element_parser_advances(s: Seq<u8>, pos: int, tag: u8)
    ensures
        parsed_element_parser(s, pos, tag) matches Ok((_, end)) ==> 0 <= pos < end <= s.len(),
{
    let start = spaces_end(s, pos);
    lemma_spaces_end(s, pos);
    lemma_name_advances(s, start + 2);
    if let Ok((_, after_name)) = parsed_name(s, start + 2) {
        lemma_caption_advances(s, after_name);
        let (_, end) = optional(parsed_caption(s, after_name), after_name);
        lemma_spaces_end(s, end);
    }
}

/// A relationship that is read takes at least one byte and ends inside the
/// input.
pub proof fn lemma_relation_ship_parser_advances(s: Seq<u8>, pos: int, head: u8)
    ensures
        parsed_relation_ship_parser(s, pos, head) matches Ok((_, end)) ==> 0 <= pos < end
            <= s.len(),
{
    let start = spaces_end(s, pos);
    lemma_spaces_end(s, pos);
    lemma_name_advances(s, start);
    if let Ok((_, dash)) = parsed_name(s, start) {
        lemma_name_advances(s, dash + 2);
        if let Ok((_, after_name)) = parsed_name(s, dash + 2) {
            lemma_caption_advances(s, after_name);
            let (_, end) = optional(parsed_caption(s, after_name), after_name);
            lemma_spaces_end(s, end);
        }
    }
}

/// A node that is read takes at least one byte and ends inside the input: the
/// repetition of nodes always moves on.
pub proof fn lemma_document_advances(s: Seq<u8>, pos: int)
    ensures
        parsed_document(s, pos) matches Ok((_, end)) ==> 0 <= pos < end <= s.len(),
{
    let start = spaces_end(s, pos);
    lemma_spaces_end(s, pos);
    let inner = blanks_end(s, start);
    lemma_blanks_end(s, start);
    lemma_element_parser_advances(s, inner, 0x74);
    lemma_element_parser_advances(s, inner, 0x75);
    lemma_element_parser_advances(s, inner, 0x63);
    lemma_element_parser_advances(s, inner, 0x65);
    lemma_element_parser_advances(s, inner, 0x61);
    lemma_element_parser_advances(s, inner, 0x70);
    lemma_element_parser_advances(s, inner, 0x72);
    lemma_relation_ship_parser_advances(s, inner, 0x2D);
    lemma_relation_ship_parser_advances(s, inner, 0x3E);
    if let Ok((_, end)) = parsed_element(s, start) {
        lemma_spaces_end(s, end);
        if let Ok((_, before_blanks)) = or_else(
            parsed_title(s, inner),
            or_else(
                parsed_user(s, inner),
                or_else(
                    parsed_command(s, inner),
                    or_else(
                        parsed_event(s, inner),
                        or_else(
                            parsed_aggregate(s, inner),
                            or_else(parsed_policy(s, inner), parsed_read_model(s, inner)),
                        ),
                    ),
                ),
            ),
        ) {
            lemma_blanks_end(s, before_blanks);
        }
    } else if let Ok((_, end)) = parsed_relation_ship(s, start) {
        lemma_spaces_end(s, end);
        if let Ok((_, before_blanks)) = or_else(parsed_line(s, inner), parsed_arrow(s, inner)) {
            lemma_blanks_end(s, before_blanks);
        }
    }
}

/// A node that is read is well formed: no name in it is empty.
pub proof fn lemma_document_wf(s: Seq<u8>, pos: int)
    ensures
        parsed_document(s, pos) matches Ok(((node, _), _)) ==> node.wf(),
{
    let inner = blanks_end(s, spaces_end(s, pos));
    lemma_element_parser_wf(s, inner, 0x74);
    lemma_element_parser_wf(s, inner, 0x75);
    lemma_element_parser_wf(s, inner, 0x63);
    lemma_element_parser_wf(s, inner, 0x65);
    lemma_element_parser_wf(s, inner, 0x61);
    lemma_element_parser_wf(s, inner, 0x70);
    lemma_element_parser_wf(s, inner, 0x72);
    lemma_relation_ship_parser_wf(s, inner, 0x2D);
    lemma_relation_ship_parser_wf(s, inner, 0x3E);
}

/// The name of a record that is read is not empty.
pub proof fn lemma_element_parser_wf(s: Seq<u8>, pos: int, tag: u8)
    ensures
        parsed_element_parser(s, pos, tag) matches Ok(((name, _, _), _)) ==> name.len() > 0,
{
    lemma_name_not_empty(s, spaces_end(s, pos) + 2);
}

/// The names of a relationship that is read are not empty.
pub proof fn lemma_relation_ship_parser_wf(s: Seq<u8>, pos: int, head: u8)
    ensures
        parsed_relation_ship_parser(s, pos, head) matches Ok(((from, to, _, _), _)) ==> from.len()
            > 0 && to.len() > 0,
{
    let start = spaces_end(s, pos);
    lemma_name_not_empty(s, start);
    if let Ok((_, dash)) = parsed_name(s, start) {
        lemma_name_not_empty(s, dash + 2);
    }
}

/// The nodes that are read one after another are all well formed, and the
/// repetition ends inside the input.
pub proof fn lemma_documents_wf(s: Seq<u8>, pos: int)
    ensures
        forall|i: int|
            0 <= i < parsed_documents(s, pos).0.len() ==> (#[trigger] parsed_documents(
                s,
                pos,
            ).0[i]).wf(),
        pos <= parsed_documents(s, pos).1,
        pos <= s.len() ==> parsed_documents(s, pos).1 <= s.len(),
    decreases s.len() - pos,
{
    lemma_document_advances(s, pos);
    lemma_document_wf(s, pos);
    if let Ok(((node, _), end)) = parsed_document(s, pos) {
        lemma_documents_wf(s, end);
        let rest = parsed_documents(s, end).0;
        assert(parsed_documents(s, pos).0 == seq![node] + rest);
        assert forall|i: int| 0 <= i < parsed_documents(s, pos).0.len() implies (
        #[trigger] parsed_documents(s, pos).0[i]).wf() by {
            if i > 0 {
                assert(parsed_documents(s, pos).0[i] == rest[i - 1]);
            }
        }
    }
}

} // verus!
