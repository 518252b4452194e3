use event_model::ast::name_type::NameType;
use event_model::ast::{Arrow, Ast, Line, Name};
use event_model::parse_error::{ErrorKind, Expectations, ParseError};
use event_model::parsers;
use event_model::parsers::{
    bare, caption, chars, document, documents, element, literal_char, name, parse, relation_ship,
    space, space_with_crlf, string, title, unicode_escape, user, utf16_chars, utf16_string,
};

fn expecting(position: usize, set: fn(&mut Expectations)) -> ParseError {
    let mut expected = Expectations::none();
    set(&mut expected);
    ParseError::new(position, expected)
}

#[test]
fn caption_decodes_utf16_escapes() {
    let parsed = parse(b"u:abc:\"\\u0041\\u0042\\u0043\"");
    assert_eq!(
        parsed,
        Ok(Ast::Documents(vec![Ast::NameDef(Name::of_user(
            "abc".to_string(),
            Some("ABC".to_string()),
        ))])),
    );
}

#[test]
fn record_without_caption_for_every_tag() {
    let cases: Vec<(&[u8], Ast)> = vec![
        (b"t:G", Ast::TitleDef(Name::of_title("G".to_string(), None))),
        (b"u:G", Ast::NameDef(Name::of_user("G".to_string(), None))),
        (b"c:G", Ast::NameDef(Name::of_command("G".to_string(), None))),
        (b"e:G", Ast::NameDef(Name::of_event("G".to_string(), None))),
        (b"a:G", Ast::NameDef(Name::of_aggregate("G".to_string(), None))),
        (b"p:G", Ast::NameDef(Name::of_policy("G".to_string(), None))),
        (b"r:G", Ast::NameDef(Name::of_read_model("G".to_string(), None))),
    ];
    for (input, node) in cases {
        assert_eq!(parse(input), Ok(Ast::Documents(vec![node])));
    }
}

#[test]
fn record_kinds_are_those_of_the_tags() {
    let parsed = parse(b"u:a\nc:b\ne:c\na:d\np:e\nr:f").unwrap();
    let kinds: Vec<NameType> = match parsed {
        Ast::Documents(nodes) => nodes
            .into_iter()
            .map(|node| match node {
                Ast::NameDef(name) => name.name_type,
                _ => NameType::Title,
            })
            .collect(),
        _ => vec![],
    };
    assert_eq!(
        kinds,
        vec![
            NameType::User,
            NameType::Command,
            NameType::Event,
            NameType::Aggregate,
            NameType::Policy,
            NameType::ReadModel,
        ],
    );
}

#[test]
fn tag_without_name_fails() {
    let parsed = parse(b"u:");
    assert_eq!(
        parsed,
        Err(expecting(2, |e| {
            e.text = true;
            e.quote = true;
        })),
    );
    assert_eq!(parsed.unwrap_err().kind(), ErrorKind::Lexical);
    assert!(user(b"u:", 0).is_err());
    assert!(name(b"", 0).is_err());
    assert!(name(b"   ", 0).is_err());
}

#[test]
fn arrow_and_line_are_told_apart() {
    assert_eq!(
        parse(b"abc->def"),
        Ok(Ast::Documents(vec![Ast::Arrow(Arrow::new(
            "abc".to_string(),
            "def".to_string(),
            None,
        ))])),
    );
    assert_eq!(
        parse(b"abc--def"),
        Ok(Ast::Documents(vec![Ast::Line(Line::new(
            "abc".to_string(),
            "def".to_string(),
            None,
        ))])),
    );
    assert!(parsers::line(b"abc->def", 0).is_err());
    assert!(parsers::arrow(b"abc--def", 0).is_err());
    assert_eq!(
        relation_ship(b"abc->def", 0).map(|read| (read.0).0),
        Ok(Ast::Arrow(Arrow::new("abc".to_string(), "def".to_string(), None))),
    );
}

#[test]
fn caption_keeps_characters_outside_ascii() {
    let input = "abc->def:\"ラベル\"".as_bytes();
    let first = parse(input);
    assert_eq!(
        first,
        Ok(Ast::Documents(vec![Ast::Arrow(Arrow::new(
            "abc".to_string(),
            "def".to_string(),
            Some("ラベル".to_string()),
        ))])),
    );
    let copy: Vec<u8> = input.to_vec();
    assert_eq!(parse(&copy), first);
}

#[test]
fn declarations_and_relationships_interleave() {
    let parsed = parse(b"t:G:\"title\"\n e:Ordered\n e:Shipped\n Ordered->Shipped");
    assert_eq!(
        parsed,
        Ok(Ast::Documents(vec![
            Ast::TitleDef(Name::of_title("G".to_string(), Some("title".to_string()))),
            Ast::NameDef(Name::of_event("Ordered".to_string(), None)),
            Ast::NameDef(Name::of_event("Shipped".to_string(), None)),
            Ast::Arrow(Arrow::new("Ordered".to_string(), "Shipped".to_string(), None)),
        ])),
    );
}

#[test]
fn dangling_operator_fails_the_whole_parse() {
    assert_eq!(
        parse(b"a->"),
        Err(expecting(3, |e| {
            e.text = true;
            e.quote = true;
        })),
    );
    assert_eq!(
        parse(b"e:Ordered\na->"),
        Err(expecting(13, |e| {
            e.text = true;
            e.quote = true;
        })),
    );
    let (read, end, stop) = documents(b"e:Ordered\na->", 0);
    assert_eq!(
        read,
        Ast::Documents(vec![Ast::NameDef(Name::of_event("Ordered".to_string(), None))]),
    );
    assert_eq!(end, 10);
    assert_eq!(stop.position, 13);
}

#[test]
fn parse_is_repeatable() {
    let input = b"t:G:\"title\"\nu:abc:\"x\"\nabc--def\nabc->def:\"\\u0041\"\n";
    let first = parse(input);
    let second = parse(input);
    let third = parse(input);
    assert!(first.is_ok());
    assert_eq!(first, second);
    assert_eq!(second, third);
    let broken = b"t:G:\"title\"\nu:abc:\"x\nabc--def";
    assert!(parse(broken).is_err());
    assert_eq!(parse(broken), parse(broken));
}

#[test]
fn empty_and_blank_inputs_are_empty_documents() {
    assert_eq!(parse(b""), Ok(Ast::Documents(vec![])));
    assert_eq!(parse(b"  \t\r\n \n"), Ok(Ast::Documents(vec![])));
    let (read, end, _) = documents(b"  \n", 0);
    assert_eq!(read, Ast::Documents(vec![]));
    assert_eq!(end, 0);
}

#[test]
fn blanks_and_line_ends_are_skipped() {
    assert_eq!(space(b"  \t a", 0), 4);
    assert_eq!(space(b"  \n a", 0), 2);
    assert_eq!(space(b"abc", 1), 1);
    assert_eq!(space(b"   ", 0), 3);
    assert_eq!(space(b"ab", 7), 7);
    assert_eq!(space_with_crlf(b" \r\n\t a", 0), 5);
    assert_eq!(space_with_crlf(b"", 0), 0);
    assert_eq!(
        parse(b"\r\n  u:abc  \r\n\r\n   abc->def   \n"),
        Ok(Ast::Documents(vec![
            Ast::NameDef(Name::of_user("abc".to_string(), None)),
            Ast::Arrow(Arrow::new("abc".to_string(), "def".to_string(), None)),
        ])),
    );
}

#[test]
fn literal_characters_and_escapes() {
    assert_eq!(literal_char(b"a", 0), Some((b'a', 1)));
    assert_eq!(literal_char(b"\\\\", 0), Some((b'\\', 2)));
    assert_eq!(literal_char(b"\\/", 0), Some((b'/', 2)));
    assert_eq!(literal_char(b"\\\"", 0), Some((b'"', 2)));
    assert_eq!(literal_char(b"\\b", 0), Some((0x08, 2)));
    assert_eq!(literal_char(b"\\f", 0), Some((0x0C, 2)));
    assert_eq!(literal_char(b"\\n", 0), Some((b'\n', 2)));
    assert_eq!(literal_char(b"\\r", 0), Some((b'\r', 2)));
    assert_eq!(literal_char(b"\\t", 0), Some((b'\t', 2)));
    assert_eq!(literal_char(b"\\u", 0), None);
    assert_eq!(literal_char(b"\\x", 0), None);
    assert_eq!(literal_char(b"\\", 0), None);
    assert_eq!(literal_char(b"\"", 0), None);
    assert_eq!(literal_char(b":", 0), None);
    assert_eq!(literal_char(b"-", 0), None);
    assert_eq!(literal_char(b"\n", 0), None);
    assert_eq!(literal_char(b"", 0), None);
    assert_eq!(literal_char(b"ab", 2), None);
    assert_eq!(literal_char(b" ", 0), Some((b' ', 1)));
    assert_eq!(
        chars(b"a\\tb\\\\c\\\"d:", 0),
        Ok(("a\tb\\c\"d".to_string(), 10)),
    );
    assert_eq!(chars(b"abc-def", 0), Ok(("abc".to_string(), 3)));
    assert_eq!(chars(b":abc", 0), Err(expecting(0, |e| e.text = true)));
}

#[test]
fn literal_must_be_valid_utf8() {
    assert_eq!(chars(&[0x61, 0xFF, 0x62], 0), Err(expecting(0, |e| e.utf8 = true)));
    assert_eq!(chars(&[0xE3, 0x83], 0), Err(expecting(0, |e| e.utf8 = true)));
    assert_eq!(chars("é".as_bytes(), 0), Ok(("é".to_string(), 2)));
    let parsed = parse(&[b'u', b':', 0xC0, 0x80]);
    assert_eq!(parsed, Err(expecting(2, |e| e.utf8 = true)));
    assert_eq!(parsed.unwrap_err().kind(), ErrorKind::Encoding);
    let bare = parse(&[0xFF, b'-', b'>', b'a']);
    assert_eq!(
        bare,
        Err(expecting(0, |e| {
            e.utf8 = true;
            e.tag = true;
        })),
    );
    assert_eq!(bare.unwrap_err().kind(), ErrorKind::Encoding);
}

#[test]
fn unicode_escapes_name_code_units() {
    assert_eq!(unicode_escape(b"\\u0041", 0), Ok((0x0041, 6)));
    assert_eq!(unicode_escape(b"\\uFFFF", 0), Ok((0xFFFF, 6)));
    assert_eq!(unicode_escape(b"\\uabcd", 0), Ok((0xABCD, 6)));
    assert_eq!(unicode_escape(b"\\uAbCd", 0), Ok((0xABCD, 6)));
    assert_eq!(unicode_escape(b"\\u30e6x", 0), Ok((0x30E6, 6)));
    assert_eq!(unicode_escape(b"x\\u0000", 1), Ok((0, 7)));
    assert_eq!(unicode_escape(b"\\u004", 0), Err(expecting(5, |e| e.hex_digit = true)));
    assert_eq!(unicode_escape(b"\\u00g1", 0), Err(expecting(4, |e| e.hex_digit = true)));
    assert_eq!(unicode_escape(b"\\u", 0), Err(expecting(2, |e| e.hex_digit = true)));
    assert_eq!(unicode_escape(b"\\n", 0), Err(expecting(0, |e| e.unicode_escape = true)));
    assert_eq!(unicode_escape(b"\\", 0), Err(expecting(0, |e| e.unicode_escape = true)));
    assert_eq!(unicode_escape(b"", 0), Err(expecting(0, |e| e.unicode_escape = true)));
}

#[test]
fn surrogate_pairs_and_unpaired_surrogates() {
    assert_eq!(
        utf16_chars(b"\\uD83D\\uDE00", 0),
        Ok(("\u{1F600}".to_string(), 12)),
    );
    assert_eq!(utf16_chars(b"\\uD800", 0), Ok(("\u{FFFD}".to_string(), 6)));
    assert_eq!(utf16_chars(b"\\uDC00", 0), Ok(("\u{FFFD}".to_string(), 6)));
    assert_eq!(
        utf16_chars(b"\\uD800\\u0041", 0),
        Ok(("\u{FFFD}A".to_string(), 12)),
    );
    assert_eq!(
        utf16_chars(b"\\uDE00\\uD83D", 0),
        Ok(("\u{FFFD}\u{FFFD}".to_string(), 12)),
    );
    assert_eq!(
        utf16_chars(b"\\uDBFF\\uDFFF", 0),
        Ok(("\u{10FFFF}".to_string(), 12)),
    );
    assert_eq!(
        utf16_chars(b"\\u30e6\\u30fc\\u30b6\\u00", 0),
        Ok(("ユーザ".to_string(), 18)),
    );
    assert_eq!(utf16_chars(b"abc", 0), Err(expecting(0, |e| e.unicode_escape = true)));
    assert_eq!(
        utf16_string(b"\"a\\uD83D\\uDE00b\\u0041\"", 0),
        Ok(("a\u{1F600}bA".to_string(), 22)),
    );
}

#[test]
fn names_are_bare_or_quoted() {
    assert_eq!(string(b"\"abc\"", 0), Ok(("abc".to_string(), 5)));
    assert_eq!(string(b"abc", 0), Ok(("abc".to_string(), 3)));
    assert_eq!(name(b"  \"abc\"  :", 0), Ok(("abc".to_string(), 9)));
    assert_eq!(name(b"  abc  :", 0), Ok(("abc".to_string(), 7)));
    assert_eq!(string(b"\"abc", 0), Err(expecting(4, |e| e.quote = true)));
    assert_eq!(string(b"\"\"", 0), Err(expecting(1, |e| e.text = true)));
    assert_eq!(
        string(b":", 0),
        Err(expecting(0, |e| {
            e.text = true;
            e.quote = true;
        })),
    );
    assert_eq!(
        parse(b"u:\"abc\":\"x\"\n\"abc\"->\"def\""),
        Ok(Ast::Documents(vec![
            Ast::NameDef(Name::of_user("abc".to_string(), Some("x".to_string()))),
            Ast::Arrow(Arrow::new("abc".to_string(), "def".to_string(), None)),
        ])),
    );
    assert_eq!(
        string(b"\"\\u0041\"", 0),
        Err(expecting(1, |e| e.text = true)),
    );
}

#[test]
fn captions_are_optional_and_quoted() {
    assert_eq!(caption(b"  :  \"x y\"  z", 0), Ok(("x y".to_string(), 12)));
    assert_eq!(caption(b":\"\"", 0), Ok(("".to_string(), 3)));
    assert_eq!(caption(b"abc", 0), Err(expecting(0, |e| e.colon = true)));
    assert_eq!(caption(b":abc", 0), Err(expecting(1, |e| e.quote = true)));
    assert_eq!(
        caption(b":\"abc", 0),
        Err(expecting(5, |e| {
            e.quote = true;
            e.text = true;
            e.unicode_escape = true;
        })),
    );
    assert_eq!(caption(b":\"ab\\u00zz\"", 0), Err(expecting(8, |e| e.hex_digit = true)));
    assert_eq!(
        caption(b":\"a-b\"", 0),
        Err(expecting(3, |e| {
            e.quote = true;
            e.text = true;
            e.unicode_escape = true;
        })),
    );
    assert_eq!(
        user(b"u:abc:zzz", 0),
        Ok((
            (
                Ast::NameDef(Name::of_user("abc".to_string(), None)),
                Some(expecting(6, |e| e.quote = true)),
            ),
            5,
        )),
    );
    assert_eq!(
        user(b"u:abc:\"x\"", 0),
        Ok((
            (
                Ast::NameDef(Name::of_user("abc".to_string(), Some("x".to_string()))),
                None,
            ),
            9,
        )),
    );
}

#[test]
fn failure_of_a_caption_left_out_is_kept() {
    assert_eq!(parse(b"u:abc:zzz"), Err(expecting(6, |e| e.quote = true)));
    assert_eq!(parse(b"u:abc:zzz").unwrap_err().kind(), ErrorKind::Lexical);
    assert_eq!(
        parse(b"u:abc:\"x"),
        Err(expecting(8, |e| {
            e.quote = true;
            e.text = true;
            e.unicode_escape = true;
        })),
    );
    assert_eq!(parse(b"a->b:\"\\u00g0\""), Err(expecting(10, |e| e.hex_digit = true)));
    assert_eq!(
        parse(b"e:x\nu:abc-"),
        Err(expecting(9, |e| {
            e.tag = true;
            e.text = true;
            e.quote = true;
            e.colon = true;
        })),
    );
    let (read, end, stop) = documents(b"u:abc:zzz", 0);
    assert_eq!(
        read,
        Ast::Documents(vec![Ast::NameDef(Name::of_user("abc".to_string(), None))]),
    );
    assert_eq!(end, 5);
    assert_eq!(stop, expecting(6, |e| e.quote = true));
}

#[test]
fn names_are_trimmed() {
    assert_eq!(name(b" abc ", 0), Ok(("abc".to_string(), 5)));
    assert_eq!(name(b"\t abc \t\r", 0), Ok(("abc".to_string(), 8)));
    assert_eq!(name(b"a b  ", 0), Ok(("a b".to_string(), 5)));
    assert_eq!(bare(b"abc  -", 0), Ok(("abc".to_string(), 5)));
    assert_eq!(bare(b"abc\\t", 0), Ok(("abc".to_string(), 5)));
    assert_eq!(string(b"\"abc \"", 0), Ok(("abc ".to_string(), 6)));
    assert_eq!(
        bare(b"  \r", 0),
        Err(expecting(0, |e| {
            e.text = true;
            e.quote = true;
        })),
    );
    assert_eq!(
        parse(b"abc -> def"),
        Ok(Ast::Documents(vec![Ast::Arrow(Arrow::new(
            "abc".to_string(),
            "def".to_string(),
            None,
        ))])),
    );
    assert_eq!(
        parse(b"e:abc\r\nabc -- def : \"x\"\r\n"),
        Ok(Ast::Documents(vec![
            Ast::NameDef(Name::of_event("abc".to_string(), None)),
            Ast::Line(Line::new("abc".to_string(), "def".to_string(), Some("x".to_string()))),
        ])),
    );
    assert_eq!(
        parse(b"u:\r"),
        Err(expecting(2, |e| {
            e.text = true;
            e.quote = true;
        })),
    );
}

#[test]
fn joined_inputs_give_their_nodes_in_order() {
    let first: &[u8] = b"t:G:\"title\"\n e:Ordered  ";
    let second: &[u8] = b"  e:Shipped\nOrdered->Shipped:\"1\"\n";
    let mut joined: Vec<u8> = first.to_vec();
    joined.push(b'\n');
    joined.extend_from_slice(second);
    let nodes = |parsed: Result<Ast, ParseError>| match parsed {
        Ok(Ast::Documents(nodes)) => nodes,
        _ => panic!("a document was expected"),
    };
    let mut expected = nodes(parse(first));
    expected.extend(nodes(parse(second)));
    assert_eq!(expected.len(), 4);
    assert_eq!(parse(&joined), Ok(Ast::Documents(expected)));
}

#[test]
fn failures_report_the_furthest_offset() {
    assert_eq!(title(b"u:abc", 0), Err(expecting(0, |e| e.tag = true)));
    assert_eq!(title(b"tabc", 0), Err(expecting(1, |e| e.colon = true)));
    assert_eq!(title(b"  \n t", 0), Err(expecting(5, |e| e.colon = true)));
    assert_eq!(
        element(b"x:abc", 0),
        Err(expecting(0, |e| e.tag = true)),
    );
    assert_eq!(parsers::arrow(b"abc", 0), Err(expecting(3, |e| e.operator = true)));
    assert_eq!(parsers::arrow(b"abc-", 0), Err(expecting(4, |e| e.operator = true)));
    assert_eq!(parsers::arrow(b"abc-x", 0), Err(expecting(4, |e| e.operator = true)));
    assert_eq!(relation_ship(b"abc-x", 0), Err(expecting(4, |e| e.operator = true)));
    assert_eq!(document(b"abc", 0), Err(expecting(3, |e| e.operator = true)));
    assert_eq!(
        document(b"?", 0),
        Err(expecting(1, |e| e.operator = true)),
    );
    assert_eq!(
        parse(b":"),
        Err(expecting(0, |e| {
            e.tag = true;
            e.text = true;
            e.quote = true;
        })),
    );
    assert_eq!(parse(b":").unwrap_err().kind(), ErrorKind::Grammar);
    assert_eq!(parse(b"abc").unwrap_err().kind(), ErrorKind::Lexical);
}

#[test]
fn errors_merge_by_offset() {
    let near = expecting(1, |e| e.tag = true);
    let far = expecting(4, |e| e.quote = true);
    let also_far = expecting(4, |e| e.colon = true);
    assert_eq!(near.merge(far), far);
    assert_eq!(far.merge(near), far);
    assert_eq!(
        far.merge(also_far),
        expecting(4, |e| {
            e.quote = true;
            e.colon = true;
        }),
    );
    assert_eq!(
        Expectations::none().merge(far.expected),
        far.expected,
    );
    assert_eq!(expecting(0, |e| e.utf8 = true).kind(), ErrorKind::Encoding);
    assert_eq!(expecting(0, |e| e.tag = true).kind(), ErrorKind::Grammar);
    assert_eq!(expecting(0, |e| e.colon = true).kind(), ErrorKind::Lexical);
}

#[test]
fn a_larger_model_parses() {
    let input = "
        t:G:\"title\"

        a:Order:\"注文\"
        a:Inventory:\"在庫\"

        c:OrderProduct:\"商品を注文する\"
        e:ProductOrdered:\"商品が注文された\"

        p:ReceiveTentativelyOrderPolicy:\"仮受注ポリシー\"

        OrderProduct->Order:\"1\"
        Order->ProductOrdered:\"2\"
        ProductOrdered--ReceiveTentativelyOrderPolicy:\"3\"

        ";
    let parsed = parse(input.as_bytes()).unwrap();
    match parsed {
        Ast::Documents(nodes) => {
            assert_eq!(nodes.len(), 9);
            assert_eq!(
                nodes[1],
                Ast::NameDef(Name::of_aggregate("Order".to_string(), Some("注文".to_string()))),
            );
            assert_eq!(
                nodes[6],
                Ast::Arrow(Arrow::new(
                    "OrderProduct".to_string(),
                    "Order".to_string(),
                    Some("1".to_string()),
                )),
            );
            assert_eq!(
                nodes[8],
                Ast::Line(Line::new(
                    "ProductOrdered".to_string(),
                    "ReceiveTentativelyOrderPolicy".to_string(),
                    Some("3".to_string()),
                )),
            );
        }
        _ => panic!("a document was expected"),
    }
}
