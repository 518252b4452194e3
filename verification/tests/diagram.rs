use event_model::ast::name_type::NameType;
use event_model::ast::{Arrow, Ast, Line, Name};
use event_model::dot_writer::{
    node_type_of_upper, DotWriter, Edge, EdgeType, Node, NodeType, Title,
};
use event_model::parsers::parse;
use event_model::text::{decode_utf16, same_text};

#[test]
fn node_type_is_read_whatever_the_case() {
    assert_eq!(NodeType::from_str("user"), Ok(NodeType::User));
    assert_eq!(NodeType::from_str("User"), Ok(NodeType::User));
    assert_eq!(NodeType::from_str("COMMAND"), Ok(NodeType::Command));
    assert_eq!(NodeType::from_str("event"), Ok(NodeType::Event));
    assert_eq!(NodeType::from_str("Aggregate"), Ok(NodeType::Aggregate));
    assert_eq!(NodeType::from_str("policy"), Ok(NodeType::Policy));
    assert_eq!(NodeType::from_str("ReadModel"), Ok(NodeType::ReadModel));
    assert_eq!(NodeType::from_str("HotSpot"), Ok(NodeType::HotSpot));
    assert_eq!(NodeType::from_str("Title"), Err(()));
    assert_eq!(NodeType::from_str(""), Err(()));
    assert_eq!(NodeType::from_str("users"), Err(()));
    assert_eq!(node_type_of_upper("USER"), Ok(NodeType::User));
    assert_eq!(node_type_of_upper("user"), Err(()));
}

#[test]
fn node_type_follows_the_kind_of_name() {
    assert_eq!(NodeType::from(&NameType::User), NodeType::User);
    assert_eq!(NodeType::from(&NameType::Command), NodeType::Command);
    assert_eq!(NodeType::from(&NameType::Event), NodeType::Event);
    assert_eq!(NodeType::from(&NameType::Aggregate), NodeType::Aggregate);
    assert_eq!(NodeType::from(&NameType::Policy), NodeType::Policy);
    assert_eq!(NodeType::from(&NameType::ReadModel), NodeType::ReadModel);
    assert_eq!(NodeType::from(&NameType::HotSpot), NodeType::HotSpot);
    for kind in [
        NameType::User,
        NameType::Command,
        NameType::Event,
        NameType::Aggregate,
        NameType::Policy,
        NameType::ReadModel,
        NameType::HotSpot,
    ] {
        assert_eq!(NodeType::from_str(&kind.to_string()), Ok(NodeType::from(&kind)));
    }
}

#[test]
fn kinds_have_names() {
    assert_eq!(NameType::Title.to_string(), "Title");
    assert_eq!(NameType::User.to_string(), "User");
    assert_eq!(NameType::Command.to_string(), "Command");
    assert_eq!(NameType::Event.to_string(), "Event");
    assert_eq!(NameType::Aggregate.to_string(), "Aggregate");
    assert_eq!(NameType::Policy.to_string(), "Policy");
    assert_eq!(NameType::ReadModel.to_string(), "ReadModel");
    assert_eq!(NameType::HotSpot.to_string(), "HotSpot");
}

#[test]
fn nodes_are_coloured_by_kind() {
    let writer = DotWriter::new();
    let colour = |name_type: NameType| {
        writer.fill_color(&Ast::NameDef(Name {
            name_type,
            name: "n".to_string(),
            caption: None,
        }))
    };
    assert_eq!(colour(NameType::User), "lightyellow");
    assert_eq!(colour(NameType::Command), "lightblue");
    assert_eq!(colour(NameType::Event), "lightyellow");
    assert_eq!(colour(NameType::Aggregate), "palegreen");
    assert_eq!(colour(NameType::Policy), "plum");
    assert_eq!(colour(NameType::ReadModel), "lightgreen");
    assert_eq!(colour(NameType::HotSpot), "lightpink");
    assert_eq!(
        writer.shape(&Ast::NameDef(Name::of_event("n".to_string(), None))),
        "box",
    );
}

#[test]
fn writer_collects_in_document_order() {
    let ast = parse(
        b"t:G:\"first\"\ne:Ordered:\"o\"\nc:Ship\nOrdered->Ship:\"1\"\nShip--Ordered\nt:H",
    )
    .unwrap();
    let mut writer = DotWriter::new();
    assert_eq!(writer.context_len(), 0);
    writer.eval_ast(&ast);
    assert_eq!(writer.title, Some(Title::new("H".to_string(), None)));
    assert_eq!(
        writer.nodes,
        vec![
            Node::new(
                "Ordered".to_string(),
                NodeType::Event,
                "box".to_string(),
                "lightyellow".to_string(),
                Some("o".to_string()),
            ),
            Node::new(
                "Ship".to_string(),
                NodeType::Command,
                "box".to_string(),
                "lightblue".to_string(),
                None,
            ),
        ],
    );
    assert_eq!(
        writer.edges,
        vec![
            Edge::new(
                EdgeType::Arrow,
                "Ordered".to_string(),
                "Ship".to_string(),
                Some("1".to_string()),
            ),
            Edge::new(EdgeType::Line, "Ship".to_string(), "Ordered".to_string(), None),
        ],
    );
    assert_eq!(writer.context_len(), 3);
}

#[test]
fn writer_handles_nested_and_empty_trees() {
    let mut writer = DotWriter::new();
    writer.eval_ast(&Ast::Empty);
    writer.eval_ast(&Ast::Comment("aside".to_string()));
    writer.eval_ast(&Ast::Documents(vec![]));
    assert_eq!(writer.context_len(), 0);
    writer.eval_ast(&Ast::Documents(vec![
        Ast::Documents(vec![Ast::Line(Line::new("a".to_string(), "b".to_string(), None))]),
        Ast::Arrow(Arrow::new("b".to_string(), "c".to_string(), None)),
    ]));
    assert_eq!(writer.context_len(), 1);
    assert_eq!(writer.edges.len(), 2);
    assert_eq!(writer.edges[0].edge_type, EdgeType::Line);
    assert_eq!(writer.edges[1].edge_type, EdgeType::Arrow);
    writer.add_node(Node::new(
        "n".to_string(),
        NodeType::HotSpot,
        "box".to_string(),
        "lightpink".to_string(),
        None,
    ));
    writer.add_edge(Edge::new(EdgeType::Line, "x".to_string(), "y".to_string(), None));
    assert_eq!(writer.nodes.len(), 1);
    assert_eq!(writer.edges.len(), 3);
    assert_eq!(writer.context_len(), 2);
}

#[test]
fn trees_can_be_copied() {
    let ast = parse(b"t:G\nu:a:\"x\"\na->b\na--b:\"y\"").unwrap();
    let copy = ast.clone();
    assert_eq!(copy, ast);
    let name = Name::of_policy("p".to_string(), Some("q".to_string()));
    assert_eq!(name.clone(), name);
    let arrow = Arrow::new("a".to_string(), "b".to_string(), None);
    assert_eq!(arrow.clone(), arrow);
    let line = Line::new("a".to_string(), "b".to_string(), Some("c".to_string()));
    assert_eq!(line.clone(), line);
}

#[test]
fn utf16_decoding_agrees_with_the_standard_library() {
    let samples: Vec<Vec<u16>> = vec![
        vec![],
        vec![0x0041, 0x0042],
        vec![0xD83D, 0xDE00],
        vec![0xD83D],
        vec![0xDE00],
        vec![0xD83D, 0x0041, 0xDE00],
        vec![0xD83D, 0xD83D, 0xDE00, 0xDE00],
        vec![0xD7FF, 0xE000, 0xFFFF, 0x0000],
        vec![0xDBFF, 0xDFFF, 0xD800, 0xDC00],
    ];
    for units in samples {
        let expected: String = char::decode_utf16(units.iter().copied())
            .map(|unit| unit.unwrap_or(char::REPLACEMENT_CHARACTER))
            .collect();
        assert_eq!(decode_utf16(&units), expected);
    }
}

#[test]
fn texts_compare_by_their_characters() {
    assert!(same_text("USER", "USER"));
    assert!(!same_text("USER", "USE"));
    assert!(!same_text("USER", "USEr"));
    assert!(same_text("", ""));
    assert!(same_text("ユーザ", "ユーザ"));
    assert!(!same_text("ユーザ", "ユーザー"));
}
