use event_model::ast::{Arrow, Ast, Line, Name};
use event_model::parse_error::ParseError;
use event_model::parsers;
use event_model::parsers::{
    aggregate, arrow, caption, caption_string, chars, command, documents, event, name, policy,
    read_model, string, user, utf16_chars, utf16_string,
};

fn test_text(result: Result<(String, usize), ParseError>, expected: String) {
    assert_eq!(result.map(|(text, _)| text), Ok(expected));
}

fn test_node(result: Result<((Ast, Option<ParseError>), usize), ParseError>, expected: Ast) {
    assert_eq!(result.map(|((node, _), _)| node), Ok(expected));
}

#[test]
fn test_chars() {
    test_text(chars(b"abc", 0), "abc".to_string());
}

#[test]
fn test_utf16_chars() {
    test_text(utf16_chars(b"\\u0041\\u0042\\u0043", 0), "ABC".to_string());
}

#[test]
fn test_string() {
    test_text(string(b"abc", 0), "abc".to_string());
}

#[test]
fn test_utf16_string() {
    test_text(utf16_string("\"ユーザ\"".as_bytes(), 0), "ユーザ".to_string());
}

#[test]
fn test_name() {
    test_text(name(b"abc", 0), "abc".to_string());
}

#[test]
fn test_caption_string() {
    test_text(caption_string("\"ユーザ\"".as_bytes(), 0), "ユーザ".to_string());
}

#[test]
fn test_caption() {
    test_text(caption(":\"ユーザ\"".as_bytes(), 0), "ユーザ".to_string());
}

#[test]
fn test_user() {
    test_node(
        user("u:abc".as_bytes(), 0),
        Ast::NameDef(Name::of_user("abc".to_string(), None)),
    );
}

#[test]
fn test_user_without_double_quote() {
    test_node(
        user("u:abc".as_bytes(), 0),
        Ast::NameDef(Name::of_user("abc".to_string(), None)),
    );
}

#[test]
fn test_user_without_double_quote_with_caption() {
    test_node(
        user("u:abc:\"ユーザ\"".as_bytes(), 0),
        Ast::NameDef(Name::of_user("abc".to_string(), Some("ユーザ".to_string()))),
    );
}

#[test]
fn test_user_with_caption() {
    test_node(
        user("u:abc:\"ユーザ\"".as_bytes(), 0),
        Ast::NameDef(Name::of_user("abc".to_string(), Some("ユーザ".to_string()))),
    );
}

#[test]
fn test_command() {
    test_node(
        command("c:abc".as_bytes(), 0),
        Ast::NameDef(Name::of_command("abc".to_string(), None)),
    );
}

#[test]
fn test_command_with_caption() {
    test_node(
        command("c:abc:\"ユーザ\"".as_bytes(), 0),
        Ast::NameDef(Name::of_command("abc".to_string(), Some("ユーザ".to_string()))),
    );
}

#[test]
fn test_event() {
    test_node(
        event("e:abc".as_bytes(), 0),
        Ast::NameDef(Name::of_event("abc".to_string(), None)),
    );
}

#[test]
fn test_event_with_caption() {
    test_node(
        event("e:abc:\"ユーザ\"".as_bytes(), 0),
        Ast::NameDef(Name::of_event("abc".to_string(), Some("ユーザ".to_string()))),
    );
}

#[test]
fn test_aggregate() {
    test_node(
        aggregate("a:abc".as_bytes(), 0),
        Ast::NameDef(Name::of_aggregate("abc".to_string(), None)),
    );
}

#[test]
fn test_aggregate_with_caption() {
    test_node(
        aggregate("a:abc:\"ユーザ\"".as_bytes(), 0),
        Ast::NameDef(Name::of_aggregate("abc".to_string(), Some("ユーザ".to_string()))),
    );
}

#[test]
fn test_policy() {
    test_node(
        policy("p:abc".as_bytes(), 0),
        Ast::NameDef(Name::of_policy("abc".to_string(), None)),
    );
}

#[test]
fn test_policy_with_caption() {
    test_node(
        policy("p:abc:\"ユーザ\"".as_bytes(), 0),
        Ast::NameDef(Name::of_policy("abc".to_string(), Some("ユーザ".to_string()))),
    );
}

#[test]
fn test_read_model() {
    test_node(
        read_model("r:abc".as_bytes(), 0),
        Ast::NameDef(Name::of_read_model("abc".to_string(), None)),
    );
}

#[test]
fn test_read_model_with_caption() {
    test_node(
        read_model("r:abc:\"ユーザ\"".as_bytes(), 0),
        Ast::NameDef(Name::of_read_model("abc".to_string(), Some("ユーザ".to_string()))),
    );
}

#[test]
fn test_arrow() {
    test_node(
        arrow("abc->def".as_bytes(), 0),
        Ast::Arrow(Arrow::new("abc".to_string(), "def".to_string(), None)),
    );
}

#[test]
fn test_arrow_with_caption() {
    test_node(
        arrow("abc->def:\"ユーザ\"".as_bytes(), 0),
        Ast::Arrow(Arrow::new(
            "abc".to_string(),
            "def".to_string(),
            Some("ユーザ".to_string()),
        )),
    );
}

#[test]
fn test_line() {
    test_node(
        parsers::line("abc--def".as_bytes(), 0),
        Ast::Line(Line::new("abc".to_string(), "def".to_string(), None)),
    );
}

#[test]
fn test_line_with_caption() {
    test_node(
        parsers::line("abc--def:\"ユーザ\"".as_bytes(), 0),
        Ast::Line(Line::new(
            "abc".to_string(),
            "def".to_string(),
            Some("ユーザ".to_string()),
        )),
    );
}

#[test]
fn test_documents() {
    let input = "
        t:G:\"title\"
        u:abc:\"ユーザ\"
        c:abc:\"ユーザ\"
        e:abc:\"ユーザ\"
        a:abc:\"ユーザ\"
        p:abc:\"ユーザ\"
        r:abc:\"ユーザ\"
        abc->def:\"ユーザ\"
        abc->def:\"ユーザ\"
        ";
    let (document, end, _) = documents(input.as_bytes(), 0);
    assert_eq!(
        document,
        Ast::Documents(vec![
            Ast::TitleDef(Name::of_title("G".to_string(), Some("title".to_string()))),
            Ast::NameDef(Name::of_user("abc".to_string(), Some("ユーザ".to_string()))),
            Ast::NameDef(Name::of_command("abc".to_string(), Some("ユーザ".to_string()))),
            Ast::NameDef(Name::of_event("abc".to_string(), Some("ユーザ".to_string()))),
            Ast::NameDef(Name::of_aggregate("abc".to_string(), Some("ユーザ".to_string()))),
            Ast::NameDef(Name::of_policy("abc".to_string(), Some("ユーザ".to_string()))),
            Ast::NameDef(Name::of_read_model("abc".to_string(), Some("ユーザ".to_string()))),
            Ast::Arrow(Arrow::new(
                "abc".to_string(),
                "def".to_string(),
                Some("ユーザ".to_string()),
            )),
            Ast::Arrow(Arrow::new(
                "abc".to_string(),
                "def".to_string(),
                Some("ユーザ".to_string()),
            )),
        ]),
    );
    assert_eq!(end, input.len());
}
