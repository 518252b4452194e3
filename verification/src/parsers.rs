//! The parsers of event model documents.
//!
//! Each function reads one rule of the [grammar](crate::grammar) from `input`
//! at the offset `pos`. It gives back what it read and the offset after it, or
//! the [`ParseError`] that stopped it. [`parse`] reads a whole document.

use crate::ast::{caption_view, lemma_views_of, Arrow, Ast, AstView, Line, Name};
use crate::grammar::{
    blanks_end, escape_units, escapes_end, failure, hex_digits, hex_value, is_hex_digit,
    lemma_document_advances, lemma_documents_wf, lemma_escapes_end, lemma_hex_digits,
    lemma_literal_end, lemma_name_advances, lemma_name_not_empty, literal_byte, literal_bytes,
    literal_end, literal_width, optional, or_else, parsed, parsed_bare, trimmed, trimmed_len,
    dropped, with_dropped, parsed_aggregate, parsed_arrow,
    parsed_caption, parsed_caption_string, parsed_chars, parsed_command, parsed_document,
    parsed_documents, parsed_element, parsed_element_parser, parsed_event, parsed_line,
    parsed_name, parsed_policy, parsed_read_model, parsed_relation_ship,
    parsed_relation_ship_parser, parsed_segments, parsed_string, parsed_title,
    parsed_unicode_escape, parsed_user, parsed_utf16_chars, parsed_utf16_string, spaces_end,
    Parsed,
};
use crate::parse_error::{Expectations, Failure, ParseError};
use crate::text::{decode_utf16, string_from_utf8};
use vstd::prelude::*;
use vstd::string::StringExecFns;

verus! {

/// What a parser of text gave, as the grammar states it.
pub open spec fn text_parsed(result: Result<(String, usize), ParseError>) -> Parsed<Seq<char>> {
    match result {
        Ok((text, end)) => Ok((text@, end as int)),
        Err(stop) => Err(stop@),
    }
}

/// The failure of a caption that was tried and left out, as the grammar
/// states it.
pub open spec fn kept_view(kept: Option<ParseError>) -> Option<Failure> {
    match kept {
        Some(stop) => Some(stop@),
        None => None,
    }
}

/// What a parser of nodes gave, as the grammar states it: the node, the
/// failure of its caption where that was tried and left out, and the offset
/// after the node.
pub open spec fn node_parsed(
    result: Result<((Ast, Option<ParseError>), usize), ParseError>,
) -> Parsed<(AstView, Option<Failure>)> {
    match result {
        Ok(((node, kept), end)) => Ok(((node@, kept_view(kept)), end as int)),
        Err(stop) => Err(stop@),
    }
}

/// Skips spaces and tabs: gives the offset of the first byte from `pos` on
/// that is neither.
pub fn space(input: &[u8], pos: usize) -> (end: usize)
    ensures
        end == blanks_end(input@, pos as int),
{
    let mut i = pos;
    while i < input.len() && (input[i] == 0x20 || input[i] == 0x09)
        invariant
            pos <= i,
            blanks_end(input@, pos as int) == blanks_end(input@, i as int),
        decreases input.len() - i,
    {
        i = i + 1;
    }
    i
}

/// Skips spaces, tabs, carriage returns and line feeds: gives the offset of
/// the first byte from `pos` on that is none of them.
pub fn space_with_crlf(input: &[u8], pos: usize) -> (end: usize)
    ensures
        end == spaces_end(input@, pos as int),
{
    let mut i = pos;
    while i < input.len() && (input[i] == 0x20 || input[i] == 0x09 || input[i] == 0x0D || input[i]
        == 0x0A)
        invariant
            pos <= i,
            spaces_end(input@, pos as int) == spaces_end(input@, i as int),
        decreases input.len() - i,
    {
        i = i + 1;
    }
    i
}

/// Reads one character of a literal at `pos`: a plain byte, or a backslash and
/// the letter of an escape. Gives the byte that it stands for and the offset
/// after it, or nothing where no such character stands.
pub fn literal_char(input: &[u8], pos: usize) -> (result: Option<(u8, usize)>)
    ensures
        result is None <==> literal_width(input@, pos as int) == 0,
        result matches Some((byte, end)) ==> byte == literal_byte(input@, pos as int) && end == pos
            + literal_width(input@, pos as int),
{
    if pos >= input.len() {
        return None;
    }
    let byte = input[pos];
    if byte != 0x5C && byte != 0x22 && byte != 0x3A && byte != 0x2D && byte != 0x0A {
        return Some((byte, pos + 1));
    }
    if byte != 0x5C || pos + 1 >= input.len() {
        return None;
    }
    let letter = input[pos + 1];
    let value: u8 = if letter == 0x5C {
        0x5C
    } else if letter == 0x2F {
        0x2F
    } else if letter == 0x22 {
        0x22
    } else if letter == 0x62 {
        0x08
    } else if letter == 0x66 {
        0x0C
    } else if letter == 0x6E {
        0x0A
    } else if letter == 0x72 {
        0x0D
    } else if letter == 0x74 {
        0x09
    } else {
        return None;
    };
    Some((value, pos + 2))
}

/// Reads the run of literal characters at `pos`: gives the bytes that they
/// stand for and the offset after the last of them.
fn literal_run(input: &[u8], pos: usize) -> (result: (Vec<u8>, usize))
    ensures
        result.0@ == literal_bytes(input@, pos as int),
        result.1 == literal_end(input@, pos as int),
        pos <= result.1,
        result.1 > pos <==> literal_width(input@, pos as int) > 0,
{
    let mut bytes: Vec<u8> = Vec::new();
    let mut i = pos;
    loop
        invariant
            pos <= i,
            i > pos ==> literal_width(input@, pos as int) > 0,
            literal_bytes(input@, pos as int) == bytes@ + literal_bytes(input@, i as int),
            literal_end(input@, pos as int) == literal_end(input@, i as int),
        ensures
            literal_width(input@, i as int) == 0,
        decreases input.len() - i,
    {
        match literal_char(input, i) {
            Some((byte, end)) => {
                proof {
                    let rest = literal_bytes(input@, end as int);
                    assert(literal_bytes(input@, i as int) == seq![byte] + rest);
                    assert(bytes@ + (seq![byte] + rest) =~= bytes@.push(byte) + rest);
                }
                bytes.push(byte);
                i = end;
            },
            None => {
                break ;
            },
        }
    }
    proof {
        assert(literal_bytes(input@, i as int) =~= Seq::<u8>::empty());
        assert(literal_bytes(input@, pos as int) =~= bytes@);
    }
    (bytes, i)
}

/// Reads a run of one or more literal characters as text.
///
/// Fails at `pos` where no literal character stands, and where the bytes that
/// the run stands for are not valid UTF-8.
pub fn chars(input: &[u8], pos: usize) -> (result: Result<(String, usize), ParseError>)
    ensures
        text_parsed(result) == parsed_chars(input@, pos as int),
{
    let (bytes, end) = literal_run(input, pos);
    if end == pos {
        return Err(ParseError::new(pos, Expectations { text: true, ..Expectations::none() }));
    }
    match string_from_utf8(bytes) {
        Some(text) => Ok((text, end)),
        None => Err(ParseError::new(pos, Expectations { utf8: true, ..Expectations::none() })),
    }
}

/// Cuts the spaces, tabs and carriage returns from the end of `bytes`.
fn trim_end(bytes: &mut Vec<u8>)
    ensures
        final(bytes)@ == trimmed(old(bytes)@),
{
    let mut keep = bytes.len();
    assert(bytes@.take(keep as int) =~= bytes@);
    while keep > 0 && (bytes[keep - 1] == 0x20 || bytes[keep - 1] == 0x09 || bytes[keep - 1]
        == 0x0D)
        invariant
            keep <= bytes.len(),
            *bytes == *old(bytes),
            trimmed_len(bytes@) == trimmed_len(bytes@.take(keep as int)),
        decreases keep,
    {
        proof {
            let head = bytes@.take(keep as int);
            assert(head.last() == bytes@[keep - 1]);
            assert(head.drop_last() =~= bytes@.take(keep - 1));
        }
        keep = keep - 1;
    }
    proof {
        let head = bytes@.take(keep as int);
        assert(bytes@.take(bytes.len() as int) =~= bytes@);
        assert(keep > 0 ==> head.last() == bytes@[keep - 1]);
        assert(trimmed_len(head) == keep);
    }
    bytes.truncate(keep);
}

/// Reads a bare literal: a run of literal characters, as text without the
/// spaces, tabs and carriage returns at its end. The offset that it gives is
/// the offset after the whole run.
///
/// Fails at `pos` where nothing is left of the run, and where what is left is
/// not valid UTF-8.
pub fn bare(input: &[u8], pos: usize) -> (result: Result<(String, usize), ParseError>)
    ensures
        text_parsed(result) == parsed_bare(input@, pos as int),
{
    let (mut bytes, end) = literal_run(input, pos);
    trim_end(&mut bytes);
    if bytes.len() == 0 {
        return Err(
            ParseError::new(pos, Expectations { text: true, quote: true, ..Expectations::none() }),
        );
    }
    match string_from_utf8(bytes) {
        Some(text) => Ok((text, end)),
        None => Err(ParseError::new(pos, Expectations { utf8: true, ..Expectations::none() })),
    }
}

/// The value of the hexadecimal digit at `pos`, or nothing where none stands.
fn hex_digit(input: &[u8], pos: usize) -> (result: Option<u16>)
    ensures
        result is Some <==> pos < input.len() && is_hex_digit(input@[pos as int]),
        result matches Some(value) ==> value == hex_value(input@[pos as int]) && value < 16,
{
    if pos >= input.len() {
        return None;
    }
    let byte = input[pos];
    if 0x30 <= byte && byte <= 0x39 {
        Some((byte - 0x30) as u16)
    } else if 0x41 <= byte && byte <= 0x46 {
        Some((byte - 0x41 + 10) as u16)
    } else if 0x61 <= byte && byte <= 0x66 {
        Some((byte - 0x61 + 10) as u16)
    } else {
        None
    }
}

/// The failure of an escape whose digit at `pos` is missing.
fn digit_missing(pos: usize) -> (result: ParseError)
    ensures
        result@ == failure(pos as int, Expectations::only_hex_digit()),
{
    ParseError::new(pos, Expectations { hex_digit: true, ..Expectations::none() })
}

/// Reads one UTF-16 escape at `pos`: a backslash, the letter `u` and four
/// hexadecimal digits. Gives the code unit that the digits name.
///
/// Fails at `pos` where no `\u` stands, and at the first of the four bytes
/// after it that is no hexadecimal digit.
pub fn unicode_escape(input: &[u8], pos: usize) -> (result: Result<(u16, usize), ParseError>)
    ensures
        match result {
            Ok((unit, end)) => parsed_unicode_escape(input@, pos as int) == Ok::<
                (u16, int),
                Failure,
            >((unit, end as int)),
            Err(stop) => parsed_unicode_escape(input@, pos as int) == Err::<(u16, int), Failure>(
                stop@,
            ),
        },
{
    if pos >= input.len() || pos + 1 >= input.len() || input[pos] != 0x5C || input[pos + 1]
        != 0x75 {
        return Err(
            ParseError::new(pos, Expectations { unicode_escape: true, ..Expectations::none() }),
        );
    }
    proof {
        reveal_with_fuel(hex_digits, 5);
    }
    let first = match hex_digit(input, pos + 2) {
        Some(value) => value,
        None => {
            return Err(digit_missing(pos + 2));
        },
    };
    let second = match hex_digit(input, pos + 3) {
        Some(value) => value,
        None => {
            return Err(digit_missing(pos + 3));
        },
    };
    let third = match hex_digit(input, pos + 4) {
        Some(value) => value,
        None => {
            return Err(digit_missing(pos + 4));
        },
    };
    let fourth = match hex_digit(input, pos + 5) {
        Some(value) => value,
        None => {
            return Err(digit_missing(pos + 5));
        },
    };
    Ok((first * 0x1000 + second * 0x100 + third * 0x10 + fourth, pos + 6))
}

/// Reads a run of one or more UTF-16 escapes as the text that their code units
/// encode. An unpaired surrogate gives the replacement character.
///
/// Fails where the first escape fails.
pub fn utf16_chars(input: &[u8], pos: usize) -> (result: Result<(String, usize), ParseError>)
    ensures
        text_parsed(result) == parsed_utf16_chars(input@, pos as int),
{
    let mut units: Vec<u16> = Vec::new();
    let mut i = pos;
    match unicode_escape(input, pos) {
        Ok((unit, end)) => {
            units.push(unit);
            i = end;
        },
        Err(stop) => {
            return Err(stop);
        },
    }
    loop
        invariant
            pos <= i,
            escape_units(input@, pos as int) == units@ + escape_units(input@, i as int),
            escapes_end(input@, pos as int) == escapes_end(input@, i as int),
        ensures
            parsed_unicode_escape(input@, i as int) is Err,
        decreases input.len() - i,
    {
        match unicode_escape(input, i) {
            Ok((unit, end)) => {
                proof {
                    lemma_hex_digits(input@, i + 2, 4);
                    let rest = escape_units(input@, end as int);
                    assert(escape_units(input@, i as int) == seq![unit] + rest);
                    assert(units@ + (seq![unit] + rest) =~= units@.push(unit) + rest);
                }
                units.push(unit);
                i = end;
            },
            Err(_) => {
                break ;
            },
        }
    }
    proof {
        assert(escape_units(input@, i as int) =~= Seq::<u16>::empty());
        assert(escape_units(input@, pos as int) =~= units@);
    }
    Ok((decode_utf16(&units), i))
}

/// Reads a literal: a run of literal characters in double quotes, or a bare
/// literal. Between quotes nothing is cut from the run.
///
/// Fails where neither a quote nor a literal character stands, where the run
/// is empty or not valid UTF-8, and where the closing quote is missing.
pub fn string(input: &[u8], pos: usize) -> (result: Result<(String, usize), ParseError>)
    ensures
        text_parsed(result) == parsed_string(input@, pos as int),
{
    if pos < input.len() && input[pos] == 0x22 {
        match chars(input, pos + 1) {
            Ok((text, end)) => {
                proof {
                    lemma_literal_end(input@, pos + 1);
                }
                if end < input.len() && input[end] == 0x22 {
                    Ok((text, end + 1))
                } else {
                    Err(ParseError::new(end, Expectations { quote: true, ..Expectations::none() }))
                }
            },
            Err(stop) => Err(stop),
        }
    } else {
        bare(input, pos)
    }
}

/// Reads one run of the text of a caption: literal characters or, where none
/// stands, UTF-16 escapes.
fn segment(input: &[u8], pos: usize) -> (result: Result<(String, usize), ParseError>)
    ensures
        text_parsed(result) == or_else(
            parsed_chars(input@, pos as int),
            parsed_utf16_chars(input@, pos as int),
        ),
        result matches Ok((_, end)) ==> pos < end <= input.len(),
{
    proof {
        lemma_literal_end(input@, pos as int);
        lemma_escapes_end(input@, pos as int);
    }
    match chars(input, pos) {
        Ok(read) => Ok(read),
        Err(first) => match utf16_chars(input, pos) {
            Ok(read) => Ok(read),
            Err(second) => Err(first.merge(second)),
        },
    }
}

/// Reads the text of a caption: a double quote, runs of literal characters
/// and of UTF-16 escapes, and a double quote.
///
/// Fails at `pos` where no quote stands. Where the closing quote is missing it
/// fails with what stopped the last run, if that got further, or with all that
/// could have gone on at the place of the quote.
pub fn utf16_string(input: &[u8], pos: usize) -> (result: Result<(String, usize), ParseError>)
    ensures
        text_parsed(result) == parsed_utf16_string(input@, pos as int),
{
    if pos >= input.len() || input[pos] != 0x22 {
        return Err(ParseError::new(pos, Expectations { quote: true, ..Expectations::none() }));
    }
    let mut text = String::new();
    let mut i = pos + 1;
    let mut stop = ParseError::new(pos, Expectations::none());
    loop
        invariant_except_break
            parsed_segments(input@, pos + 1).0 == text@ + parsed_segments(input@, i as int).0,
        invariant
            pos < i <= input.len(),
            parsed_segments(input@, pos + 1).1 == parsed_segments(input@, i as int).1,
            parsed_segments(input@, pos + 1).2 == parsed_segments(input@, i as int).2,
        ensures
            parsed_segments(input@, pos + 1) == (text@, i as int, stop@),
        decreases input.len() - i,
    {
        match segment(input, i) {
            Ok((run, end)) => {
                proof {
                    let rest = parsed_segments(input@, end as int).0;
                    assert(parsed_segments(input@, i as int).0 == run@ + rest);
                    assert(text@ + (run@ + rest) =~= (text@ + run@) + rest);
                }
                text.append(run.as_str());
                i = end;
            },
            Err(last) => {
                proof {
                    assert(parsed_segments(input@, i as int).0 =~= Seq::<char>::empty());
                    assert(text@ + Seq::<char>::empty() =~= text@);
                }
                stop = last;
                break ;
            },
        }
    }
    if i < input.len() && input[i] == 0x22 {
        Ok((text, i + 1))
    } else {
        Err(stop.merge(ParseError::new(i, Expectations { quote: true, ..Expectations::none() })))
    }
}

/// Reads a name: a literal, quoted or bare, with blanks before and after it.
pub fn name(input: &[u8], pos: usize) -> (result: Result<(String, usize), ParseError>)
    ensures
        text_parsed(result) == parsed_name(input@, pos as int),
{
    match string(input, space(input, pos)) {
        Ok((text, end)) => Ok((text, space(input, end))),
        Err(stop) => Err(stop),
    }
}

/// Reads the text of a caption with blanks before and after it.
pub fn caption_string(input: &[u8], pos: usize) -> (result: Result<(String, usize), ParseError>)
    ensures
        text_parsed(result) == parsed_caption_string(input@, pos as int),
{
    match utf16_string(input, space(input, pos)) {
        Ok((text, end)) => Ok((text, space(input, end))),
        Err(stop) => Err(stop),
    }
}

/// Reads a caption: a colon and the quoted text after it.
///
/// Fails at the place of the colon where none stands, and where the text
/// fails.
pub fn caption(input: &[u8], pos: usize) -> (result: Result<(String, usize), ParseError>)
    ensures
        text_parsed(result) == parsed_caption(input@, pos as int),
{
    let colon = space(input, pos);
    if colon < input.len() && input[colon] == 0x3A {
        caption_string(input, colon + 1)
    } else {
        Err(ParseError::new(colon, Expectations { colon: true, ..Expectations::none() }))
    }
}

/// A caption if one stands at `pos`: its text and the offset after it, or
/// nothing, `pos`, and the failure of the caption that was tried.
fn optional_caption(input: &[u8], pos: usize) -> (result: (Option<String>, usize, Option<ParseError>))
    ensures
        (caption_view(result.0), result.1 as int) == optional(
            parsed_caption(input@, pos as int),
            pos as int,
        ),
        kept_view(result.2) == dropped(parsed_caption(input@, pos as int)),
{
    match caption(input, pos) {
        Ok((text, end)) => (Some(text), end, None),
        Err(stop) => (None, pos, Some(stop)),
    }
}

/// What a parser of records gave, as the grammar states it.
pub open spec fn element_parsed(
    result: Result<((String, Option<String>, Option<ParseError>), usize), ParseError>,
) -> Parsed<(Seq<char>, Option<Seq<char>>, Option<Failure>)> {
    match result {
        Ok(((name, caption, kept), end)) => Ok(
            ((name@, caption_view(caption), kept_view(kept)), end as int),
        ),
        Err(stop) => Err(stop@),
    }
}

/// What a parser of relationships gave, as the grammar states it.
pub open spec fn relation_ship_parsed(
    result: Result<((String, String, Option<String>, Option<ParseError>), usize), ParseError>,
) -> Parsed<(Seq<char>, Seq<char>, Option<Seq<char>>, Option<Failure>)> {
    match result {
        Ok(((from, to, caption, kept), end)) => Ok(
            ((from@, to@, caption_view(caption), kept_view(kept)), end as int),
        ),
        Err(stop) => Err(stop@),
    }
}

/// Reads a record with the tag `tag`: blanks and line ends, the tag, a colon,
/// a name and, if one follows, a caption, and blanks and line ends again.
/// Gives the name, the caption, and the failure of the caption where one was
/// tried and left out.
///
/// Fails where the tag or the colon is missing, and where the name fails. A
/// caption that fails is no caption: the record ends before it.
pub fn element_parser(input: &[u8], pos: usize, tag: u8) -> (result: Result<
    ((String, Option<String>, Option<ParseError>), usize),
    ParseError,
>)
    ensures
        element_parsed(result) == parsed_element_parser(input@, pos as int, tag),
        result matches Ok(((name, _, _), _)) ==> name@.len() > 0,
{
    let start = space_with_crlf(input, pos);
    if start >= input.len() || input[start] != tag {
        return Err(ParseError::new(start, Expectations { tag: true, ..Expectations::none() }));
    }
    if start + 1 >= input.len() || input[start + 1] != 0x3A {
        return Err(
            ParseError::new(start + 1, Expectations { colon: true, ..Expectations::none() }),
        );
    }
    proof {
        lemma_name_advances(input@, start + 2);
        lemma_name_not_empty(input@, start + 2);
    }
    match name(input, start + 2) {
        Ok((name, after_name)) => {
            let (caption, end, kept) = optional_caption(input, after_name);
            Ok(((name, caption, kept), space_with_crlf(input, end)))
        },
        Err(stop) => Err(stop),
    }
}

/// Reads a title: `t:<name>` and an optional caption.
pub fn title(input: &[u8], pos: usize) -> (result: Result<
    ((Ast, Option<ParseError>), usize),
    ParseError,
>)
    ensures
        node_parsed(result) == parsed_title(input@, pos as int),
{
    match element_parser(input, pos, 0x74) {
        Ok(((name, caption, kept), end)) => Ok(
            ((Ast::TitleDef(Name::of_title(name, caption)), kept), end),
        ),
        Err(stop) => Err(stop),
    }
}

/// Reads a user: `u:<name>` and an optional caption.
pub fn user(input: &[u8], pos: usize) -> (result: Result<
    ((Ast, Option<ParseError>), usize),
    ParseError,
>)
    ensures
        node_parsed(result) == parsed_user(input@, pos as int),
{
    match element_parser(input, pos, 0x75) {
        Ok(((name, caption, kept), end)) => Ok(
            ((Ast::NameDef(Name::of_user(name, caption)), kept), end),
        ),
        Err(stop) => Err(stop),
    }
}

/// Reads a command: `c:<name>` and an optional caption.
pub fn command(input: &[u8], pos: usize) -> (result: Result<
    ((Ast, Option<ParseError>), usize),
    ParseError,
>)
    ensures
        node_parsed(result) == parsed_command(input@, pos as int),
{
    match element_parser(input, pos, 0x63) {
        Ok(((name, caption, kept), end)) => Ok(
            ((Ast::NameDef(Name::of_command(name, caption)), kept), end),
        ),
        Err(stop) => Err(stop),
    }
}

/// Reads an event: `e:<name>` and an optional caption.
pub fn event(input: &[u8], pos: usize) -> (result: Result<
    ((Ast, Option<ParseError>), usize),
    ParseError,
>)
    ensures
        node_parsed(result) == parsed_event(input@, pos as int),
{
    match element_parser(input, pos, 0x65) {
        Ok(((name, caption, kept), end)) => Ok(
            ((Ast::NameDef(Name::of_event(name, caption)), kept), end),
        ),
        Err(stop) => Err(stop),
    }
}

/// Reads an aggregate: `a:<name>` and an optional caption.
pub fn aggregate(input: &[u8], pos: usize) -> (result: Result<
    ((Ast, Option<ParseError>), usize),
    ParseError,
>)
    ensures
        node_parsed(result) == parsed_aggregate(input@, pos as int),
{
    match element_parser(input, pos, 0x61) {
        Ok(((name, caption, kept), end)) => Ok(
            ((Ast::NameDef(Name::of_aggregate(name, caption)), kept), end),
        ),
        Err(stop) => Err(stop),
    }
}

/// Reads a policy: `p:<name>` and an optional caption.
pub fn policy(input: &[u8], pos: usize) -> (result: Result<
    ((Ast, Option<ParseError>), usize),
    ParseError,
>)
    ensures
        node_parsed(result) == parsed_policy(input@, pos as int),
{
    match element_parser(input, pos, 0x70) {
        Ok(((name, caption, kept), end)) => Ok(
            ((Ast::NameDef(Name::of_policy(name, caption)), kept), end),
        ),
        Err(stop) => Err(stop),
    }
}

/// Reads a read model: `r:<name>` and an optional caption.
pub fn read_model(input: &[u8], pos: usize) -> (result: Result<
    ((Ast, Option<ParseError>), usize),
    ParseError,
>)
    ensures
        node_parsed(result) == parsed_read_model(input@, pos as int),
{
    match element_parser(input, pos, 0x72) {
        Ok(((name, caption, kept), end)) => Ok(
            ((Ast::NameDef(Name::of_read_model(name, caption)), kept), end),
        ),
        Err(stop) => Err(stop),
    }
}

/// Reads a record of any of the seven kinds, with blanks before and after it.
/// The kinds are tried in the order title, user, command, event, aggregate,
/// policy, read model.
///
/// Fails where all seven fail, with the failure that got furthest.
#[verifier::rlimit(50)]
pub fn element(input: &[u8], pos: usize) -> (result: Result<
    ((Ast, Option<ParseError>), usize),
    ParseError,
>)
    ensures
        node_parsed(result) == parsed_element(input@, pos as int),
{
    let start = space(input, pos);
    let read = match title(input, start) {
        Ok(read) => read,
        Err(stop1) => match user(input, start) {
            Ok(read) => read,
            Err(stop2) => match command(input, start) {
                Ok(read) => read,
                Err(stop3) => match event(input, start) {
                    Ok(read) => read,
                    Err(stop4) => match aggregate(input, start) {
                        Ok(read) => read,
                        Err(stop5) => match policy(input, start) {
                            Ok(read) => read,
                            Err(stop6) => match read_model(input, start) {
                                Ok(read) => read,
                                Err(stop7) => {
                                    return Err(
                                        stop1.merge(
                                            stop2.merge(
                                                stop3.merge(
                                                    stop4.merge(stop5.merge(stop6.merge(stop7))),
                                                ),
                                            ),
                                        ),
                                    );
                                },
                            },
                        },
                    },
                },
            },
        },
    };
    Ok((read.0, space(input, read.1)))
}

/// Reads a relationship whose operator is a dash followed by `head`: blanks
/// and line ends, a name, the operator, a name and, if one follows, a caption,
/// and blanks and line ends again. Gives the two names, the caption, and the
/// failure of the caption where one was tried and left out.
///
/// Fails where the first name fails, at the byte of the operator that is
/// missing, and where the second name fails. A caption that fails is no
/// caption: the relationship ends before it.
pub fn relation_ship_parser(input: &[u8], pos: usize, head: u8) -> (result: Result<
    ((String, String, Option<String>, Option<ParseError>), usize),
    ParseError,
>)
    ensures
        relation_ship_parsed(result) == parsed_relation_ship_parser(input@, pos as int, head),
        result matches Ok(((from, to, _, _), _)) ==> from@.len() > 0 && to@.len() > 0,
{
    let start = space_with_crlf(input, pos);
    proof {
        lemma_name_advances(input@, start as int);
        lemma_name_not_empty(input@, start as int);
    }
    match name(input, start) {
        Ok((from, dash)) => {
            if dash >= input.len() || input[dash] != 0x2D {
                return Err(
                    ParseError::new(dash, Expectations { operator: true, ..Expectations::none() }),
                );
            }
            if dash + 1 >= input.len() || input[dash + 1] != head {
                return Err(
                    ParseError::new(
                        dash + 1,
                        Expectations { operator: true, ..Expectations::none() },
                    ),
                );
            }
            proof {
                lemma_name_advances(input@, dash + 2);
                lemma_name_not_empty(input@, dash + 2);
            }
            match name(input, dash + 2) {
                Ok((to, after_name)) => {
                    let (caption, end, kept) = optional_caption(input, after_name);
                    Ok(((from, to, caption, kept), space_with_crlf(input, end)))
                },
                Err(stop) => Err(stop),
            }
        },
        Err(stop) => Err(stop),
    }
}

/// Reads an arrow: `<name>-><name>` and an optional caption.
pub fn arrow(input: &[u8], pos: usize) -> (result: Result<
    ((Ast, Option<ParseError>), usize),
    ParseError,
>)
    ensures
        node_parsed(result) == parsed_arrow(input@, pos as int),
{
    match relation_ship_parser(input, pos, 0x3E) {
        Ok(((from, to, caption, kept), end)) => Ok(
            ((Ast::Arrow(Arrow::new(from, to, caption)), kept), end),
        ),
        Err(stop) => Err(stop),
    }
}

/// Reads a line: `<name>--<name>` and an optional caption.
pub fn line(input: &[u8], pos: usize) -> (result: Result<
    ((Ast, Option<ParseError>), usize),
    ParseError,
>)
    ensures
        node_parsed(result) == parsed_line(input@, pos as int),
{
    match relation_ship_parser(input, pos, 0x2D) {
        Ok(((from, to, caption, kept), end)) => Ok(
            ((Ast::Line(Line::new(from, to, caption)), kept), end),
        ),
        Err(stop) => Err(stop),
    }
}

/// Reads a relationship, with blanks before and after it: a line, and where
/// that fails, from the same offset, an arrow.
///
/// Fails where both fail, with the failure that got furthest.
pub fn relation_ship(input: &[u8], pos: usize) -> (result: Result<
    ((Ast, Option<ParseError>), usize),
    ParseError,
>)
    ensures
        node_parsed(result) == parsed_relation_ship(input@, pos as int),
{
    let start = space(input, pos);
    let read = match line(input, start) {
        Ok(read) => read,
        Err(first) => match arrow(input, start) {
            Ok(read) => read,
            Err(second) => {
                return Err(first.merge(second));
            },
        },
    };
    Ok((read.0, space(input, read.1)))
}

/// Reads one node of a document, with blanks and line ends before and after
/// it: a record, and where that fails, from the same offset, a relationship.
///
/// Fails where both fail, with the failure that got furthest.
pub fn document(input: &[u8], pos: usize) -> (result: Result<
    ((Ast, Option<ParseError>), usize),
    ParseError,
>)
    ensures
        node_parsed(result) == parsed_document(input@, pos as int),
        result matches Ok((_, end)) ==> pos < end <= input.len(),
{
    proof {
        lemma_document_advances(input@, pos as int);
    }
    let start = space_with_crlf(input, pos);
    let read = match element(input, start) {
        Ok(read) => read,
        Err(first) => match relation_ship(input, start) {
            Ok(read) => read,
            Err(second) => {
                return Err(first.merge(second));
            },
        },
    };
    Ok((read.0, space_with_crlf(input, read.1)))
}

/// The failure that got further of two that may be there.
fn furthest_kept(first: Option<ParseError>, second: Option<ParseError>) -> (result: Option<
    ParseError,
>)
    ensures
        forall|stop: Failure|
            with_dropped(kept_view(result), stop) == #[trigger] with_dropped(
                kept_view(first),
                with_dropped(kept_view(second), stop),
            ),
{
    match first {
        Some(earlier) => match second {
            Some(later) => Some(earlier.merge(later)),
            None => Some(earlier),
        },
        None => second,
    }
}

/// Reads as many nodes as stand one after another from `pos` on. Gives them
/// as a document in the order in which they were read, the offset after the
/// last of them, and the furthest failure met on the way: that of the node
/// that could not be read next or, where it got further, that of a caption
/// that was tried and left out.
pub fn documents(input: &[u8], pos: usize) -> (result: (Ast, usize, ParseError))
    ensures
        result.0@ == AstView::Documents(parsed_documents(input@, pos as int).0),
        result.1 == parsed_documents(input@, pos as int).1,
        result.2@ == parsed_documents(input@, pos as int).2,
{
    let mut nodes: Vec<Ast> = Vec::new();
    let mut i = pos;
    let mut stop = ParseError::new(pos, Expectations::none());
    let mut kept: Option<ParseError> = None;
    let ghost mut seen: Seq<AstView> = Seq::empty();
    loop
        invariant_except_break
            parsed_documents(input@, pos as int).0 == seen + parsed_documents(input@, i as int).0,
        invariant
            pos <= i,
            seen.len() == nodes.len(),
            forall|k: int| 0 <= k < nodes.len() ==> (#[trigger] nodes[k])@ == seen[k],
            parsed_documents(input@, pos as int).1 == parsed_documents(input@, i as int).1,
            parsed_documents(input@, pos as int).2 == with_dropped(
                kept_view(kept),
                parsed_documents(input@, i as int).2,
            ),
        ensures
            parsed_documents(input@, pos as int).0 == seen,
            parsed_documents(input@, pos as int).1 == i,
            parsed_documents(input@, pos as int).2 == with_dropped(kept_view(kept), stop@),
        decreases input.len() - i,
    {
        match document(input, i) {
            Ok(((node, left_out), end)) => {
                proof {
                    let rest = parsed_documents(input@, end as int).0;
                    assert(parsed_documents(input@, i as int).0 == seq![node@] + rest);
                    assert(seen + (seq![node@] + rest) =~= seen.push(node@) + rest);
                    seen = seen.push(node@);
                    assert(parsed_documents(input@, i as int).2 == with_dropped(
                        kept_view(left_out),
                        parsed_documents(input@, end as int).2,
                    ));
                }
                kept = furthest_kept(kept, left_out);
                nodes.push(node);
                i = end;
            },
            Err(last) => {
                proof {
                    assert(parsed_documents(input@, i as int).0 =~= Seq::<AstView>::empty());
                    assert(seen + Seq::<AstView>::empty() =~= seen);
                }
                stop = last;
                break ;
            },
        }
    }
    let document = Ast::Documents(nodes);
    proof {
        lemma_views_of(nodes, nodes.len() as nat);
        assert(document@->Documents_0 =~= seen);
    }
    let stop = match kept {
        Some(earlier) => earlier.merge(stop),
        None => stop,
    };
    (document, i, stop)
}

/// Reads a whole document.
///
/// Gives the nodes of the input in the order in which they are written, if
/// nothing but blanks and line ends is left after them. The names in them are
/// not empty. Otherwise the whole parse fails, with the furthest failure that
/// it has met: the furthest offset that a rule reached before it failed, a
/// caption that was tried and left out included, and what was expected at
/// that offset.
pub fn parse(input: &[u8]) -> (result: Result<Ast, ParseError>)
    ensures
        match result {
            Ok(document) => parsed(input@) == Ok::<AstView, Failure>(document@),
            Err(stop) => parsed(input@) == Err::<AstView, Failure>(stop@),
        },
        result matches Ok(document) ==> document@.wf(),
{
    let (document, end, stop) = documents(input, 0);
    proof {
        lemma_documents_wf(input@, 0);
    }
    if space_with_crlf(input, end) == input.len() {
        Ok(document)
    } else {
        Err(stop)
    }
}

} // verus!
