use event_model::ast::name_type::NameType;
use event_model::ast::{Arrow, Ast, Name};
use event_model::dot_writer::DotWriter;

#[test]
fn dot_writer_it_works() {
    let mut visitor = DotWriter::new();
    let ast = Ast::TitleDef(Name::of_title("Test".to_string(), None));
    visitor.eval_ast(&ast);
    assert_eq!(visitor.context_len(), 1);
}

#[test]
fn dot_writer_it_works2() {
    let mut visitor = DotWriter::new();
    let ast = Ast::NameDef(Name {
        name_type: NameType::User,
        name: "Test".to_string(),
        caption: None,
    });
    visitor.eval_ast(&ast);
    assert_eq!(visitor.nodes.len(), 1);
}

#[test]
fn dot_writer_it_works3() {
    let mut visitor = DotWriter::new();
    let ast = Ast::Arrow(Arrow {
        from_ref: "Test".to_string(),
        to_ref: "Test".to_string(),
        caption: None,
    });
    visitor.eval_ast(&ast);
    assert_eq!(visitor.edges.len(), 1);
}
