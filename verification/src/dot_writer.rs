//! What a diagram of an event model shows: its title, a node for each named
//! element and an edge for each relationship.

use crate::ast::name_type::NameType;
use crate::ast::{caption_view, clone_caption, lemma_views_of, Ast, AstView, NameView};
use crate::text::{same_text, to_uppercase, uppercase};
use vstd::prelude::*;

verus! {

/// The kind of a node of the diagram.
#[derive(Debug, Clone, Copy, PartialEq, Eq, Structural)]
pub enum NodeType {
    User,
    Command,
    Event,
    Aggregate,
    Policy,
    ReadModel,
    HotSpot,
}

/// The kind of an edge of the diagram.
#[derive(Debug, Clone, Copy, PartialEq, Eq, Structural)]
pub enum EdgeType {
    Arrow,
    Line,
}

/// The title of the diagram.
#[derive(Debug, PartialEq)]
pub struct Title {
    pub name: String,
    pub caption: Option<String>,
}

/// A node of the diagram.
#[derive(Debug, PartialEq)]
pub struct Node {
    pub name: String,
    pub node_type: NodeType,
    pub shape: String,
    pub fill_color: String,
    pub label: Option<String>,
}

/// An edge of the diagram.
#[derive(Debug, PartialEq)]
pub struct Edge {
    pub edge_type: EdgeType,
    pub from: String,
    pub to: String,
    pub label: Option<String>,
}

/// Collects what a diagram shows from the syntax trees that it is given.
pub struct DotWriter {
    pub title: Option<Title>,
    pub nodes: Vec<Node>,
    pub edges: Vec<Edge>,
}

/// What a [`Title`] stands for.
pub struct TitleView {
    pub name: Seq<char>,
    pub caption: Option<Seq<char>>,
}

/// What a [`Node`] stands for.
pub struct NodeView {
    pub name: Seq<char>,
    pub node_type: NodeType,
    pub shape: Seq<char>,
    pub fill_color: Seq<char>,
    pub label: Option<Seq<char>>,
}

/// What an [`Edge`] stands for.
pub struct EdgeView {
    pub edge_type: EdgeType,
    pub from: Seq<char>,
    pub to: Seq<char>,
    pub label: Option<Seq<char>>,
}

/// What a [`DotWriter`] has collected.
pub struct DotWriterView {
    pub title: Option<TitleView>,
    pub nodes: Seq<NodeView>,
    pub edges: Seq<EdgeView>,
}

impl View for Title {
    type V = TitleView;

    open spec fn view(&self) -> TitleView {
        TitleView { name: self.name@, caption: caption_view(self.caption) }
    }
}

impl View for Node {
    type V = NodeView;

    open spec fn view(&self) -> NodeView {
        NodeView {
            name: self.name@,
            node_type: self.node_type,
            shape: self.shape@,
            fill_color: self.fill_color@,
            label: caption_view(self.label),
        }
    }
}

impl View for Edge {
    type V = EdgeView;

    open spec fn view(&self) -> EdgeView {
        EdgeView {
            edge_type: self.edge_type,
            from: self.from@,
            to: self.to@,
            label: caption_view(self.label),
        }
    }
}

impl View for DotWriter {
    type V = DotWriterView;

    open spec fn view(&self) -> DotWriterView {
        DotWriterView {
            title: match self.title {
                Some(title) => Some(title@),
                None => None,
            },
            nodes: Seq::new(self.nodes.len() as nat, |i: int| self.nodes[i]@),
            edges: Seq::new(self.edges.len() as nat, |i: int| self.edges[i]@),
        }
    }
}

/// The kind of node that shows a named element of the kind `name_type`. A
/// title is no node: it has no kind.
pub open spec fn node_type_of(name_type: NameType) -> NodeType
    recommends
        name_type != NameType::Title,
{
    match name_type {
        NameType::User => NodeType::User,
        NameType::Command => NodeType::Command,
        NameType::Event => NodeType::Event,
        NameType::Aggregate => NodeType::Aggregate,
        NameType::Policy => NodeType::Policy,
        NameType::ReadModel => NodeType::ReadModel,
        _ => NodeType::HotSpot,
    }
}

/// The colour that fills a node for a named element of the kind `name_type`.
pub open spec fn fill_color_of(name_type: NameType) -> Seq<char>
    recommends
        name_type != NameType::Title,
{
    match name_type {
        NameType::User => "lightyellow"@,
        NameType::Command => "lightblue"@,
        NameType::Event => "lightyellow"@,
        NameType::Aggregate => "palegreen"@,
        NameType::Policy => "plum"@,
        NameType::ReadModel => "lightgreen"@,
        _ => "lightpink"@,
    }
}

/// The shape of every node.
pub open spec fn shape_of() -> Seq<char> {
    "box"@
}

/// The node that shows the named element `name`.
pub open spec fn node_of(name: NameView) -> NodeView {
    NodeView {
        name: name.name,
        node_type: node_type_of(name.name_type),
        shape: shape_of(),
        fill_color: fill_color_of(name.name_type),
        label: name.caption,
    }
}

/// A tree that can be shown: none of its declarations is of the kind title.
pub open spec fn drawable(ast: AstView) -> bool
    decreases ast,
{
    match ast {
        AstView::NameDef(name) => name.name_type != NameType::Title,
        AstView::Documents(nodes) => forall|i: int|
            0 <= i < nodes.len() ==> drawable(#[trigger] nodes[i]),
        _ => true,
    }
}

/// What has been collected once `ast` has been added to `state`: a title
/// replaces the title; a declaration adds a node; an arrow or a line adds an
/// edge; a document adds its nodes one after another; a comment and the empty
/// tree add nothing.
pub open spec fn evaluated(state: DotWriterView, ast: AstView) -> DotWriterView
    decreases ast, 0nat,
{
    match ast {
        AstView::TitleDef(name) => DotWriterView {
            title: Some(TitleView { name: name.name, caption: name.caption }),
            ..state
        },
        AstView::NameDef(name) => DotWriterView { nodes: state.nodes.push(node_of(name)), ..state },
        AstView::Arrow(arrow) => DotWriterView {
            edges: state.edges.push(
                EdgeView {
                    edge_type: EdgeType::Arrow,
                    from: arrow.from_ref,
                    to: arrow.to_ref,
                    label: arrow.caption,
                },
            ),
            ..state
        },
        AstView::Line(line) => DotWriterView {
            edges: state.edges.push(
                EdgeView {
                    edge_type: EdgeType::Line,
                    from: line.from_ref,
                    to: line.to_ref,
                    label: line.caption,
                },
            ),
            ..state
        },
        AstView::Comment(_) => state,
        AstView::Empty => state,
        AstView::Documents(nodes) => evaluated_all(state, nodes, nodes.len()),
    }
}

/// What has been collected once the first `count` of `nodes` have been added
/// to `state`, in their order.
pub open spec fn evaluated_all(
    state: DotWriterView,
    nodes: Seq<AstView>,
    count: nat,
) -> DotWriterView
    decreases nodes, count,
{
    if count == 0 || count > nodes.len() {
        state
    } else {
        evaluated(evaluated_all(state, nodes, (count - 1) as nat), nodes[count - 1])
    }
}

/// The number of entries that the collected data gives the template of the
/// diagram: one for the title if there is one, one for the nodes if there is
/// any, one for the edges if there is any.
pub open spec fn context_size(state: DotWriterView) -> nat {
    (if state.title is Some {
        1nat
    } else {
        0nat
    }) + (if state.nodes.len() > 0 {
        1nat
    } else {
        0nat
    }) + (if state.edges.len() > 0 {
        1nat
    } else {
        0nat
    })
}

/// The kind of node whose name in upper case is `upper`, where there is one.
pub open spec fn node_type_named(upper: Seq<char>) -> Result<NodeType, ()> {
    if upper == "USER"@ {
        Ok(NodeType::User)
    } else if upper == "COMMAND"@ {
        Ok(NodeType::Command)
    } else if upper == "EVENT"@ {
        Ok(NodeType::Event)
    } else if upper == "AGGREGATE"@ {
        Ok(NodeType::Aggregate)
    } else if upper == "POLICY"@ {
        Ok(NodeType::Policy)
    } else if upper == "READMODEL"@ {
        Ok(NodeType::ReadModel)
    } else if upper == "HOTSPOT"@ {
        Ok(NodeType::HotSpot)
    } else {
        Err(())
    }
}

/// The kind of node whose name in upper case is `upper`. Fails where `upper`
/// is the name of no kind.
pub fn node_type_of_upper(upper: &str) -> (result: Result<NodeType, ()>)
    ensures
        result == node_type_named(upper@),
{
    if same_text(upper, "USER") {
        Ok(NodeType::User)
    } else if same_text(upper, "COMMAND") {
        Ok(NodeType::Command)
    } else if same_text(upper, "EVENT") {
        Ok(NodeType::Event)
    } else if same_text(upper, "AGGREGATE") {
        Ok(NodeType::Aggregate)
    } else if same_text(upper, "POLICY") {
        Ok(NodeType::Policy)
    } else if same_text(upper, "READMODEL") {
        Ok(NodeType::ReadModel)
    } else if same_text(upper, "HOTSPOT") {
        Ok(NodeType::HotSpot)
    } else {
        Err(())
    }
}

impl NodeType {
    /// The kind of node that `s` names, whatever the case of its letters.
    /// Fails where `s` names no kind.
    pub fn from_str(s: &str) -> (result: Result<NodeType, ()>)
        ensures
            result == node_type_named(uppercase(s@)),
    {
        let upper = to_uppercase(s);
        node_type_of_upper(upper.as_str())
    }

    /// The kind of node that shows a named element of the kind `name_type`.
    /// A title is shown by no node: `name_type` may not be the title.
    pub fn from(name_type: &NameType) -> (result: NodeType)
        requires
            *name_type != NameType::Title,
        ensures
            result == node_type_of(*name_type),
    {
        match name_type {
            NameType::User => NodeType::User,
            NameType::Command => NodeType::Command,
            NameType::Event => NodeType::Event,
            NameType::Aggregate => NodeType::Aggregate,
            NameType::Policy => NodeType::Policy,
            NameType::ReadModel => NodeType::ReadModel,
            _ => NodeType::HotSpot,
        }
    }
}

impl Title {
    /// The title `name` with the caption `caption`.
    pub fn new(name: String, caption: Option<String>) -> (result: Self)
        ensures
            result.name == name,
            result.caption == caption,
    {
        Self { name, caption }
    }
}

impl Node {
    /// The node `name` of the kind `node_type`, drawn as `shape` and filled
    /// with `fill_color`, with the label `label`.
    pub fn new(
        name: String,
        node_type: NodeType,
        shape: String,
        fill_color: String,
        label: Option<String>,
    ) -> (result: Self)
        ensures
            result.name == name,
            result.node_type == node_type,
            result.shape == shape,
            result.fill_color == fill_color,
            result.label == label,
    {
        Self { name, node_type, shape, fill_color, label }
    }
}

impl Edge {
    /// The edge of the kind `edge_type` from `from` to `to`, with the label
    /// `label`.
    pub fn new(edge_type: EdgeType, from: String, to: String, label: Option<String>) -> (result:
        Self)
        ensures
            result.edge_type == edge_type,
            result.from == from,
            result.to == to,
            result.label == label,
    {
        Self { edge_type, from, to, label }
    }
}

/// Whether `ast` can be shown: whether none of its declarations is of the
/// kind title.
pub fn is_drawable(ast: &Ast) -> (result: bool)
    ensures
        result == drawable(ast@),
    decreases ast,
{
    match ast {
        Ast::NameDef(name) => match name.name_type {
            NameType::Title => false,
            _ => true,
        },
        Ast::Documents(documents) => {
            proof {
                lemma_views_of(*documents, documents.len() as nat);
            }
            let mut i: usize = 0;
            while i < documents.len()
                invariant
                    *ast == Ast::Documents(*documents),
                    ast@->Documents_0.len() == documents.len(),
                    forall|k: int|
                        0 <= k < documents.len() ==> ast@->Documents_0[k] == documents[k]@,
                    i <= documents.len(),
                    forall|k: int| 0 <= k < i ==> drawable(#[trigger] ast@->Documents_0[k]),
                decreases documents.len() - i,
            {
                proof {
                    vstd::std_specs::vec::axiom_vec_index_decreases(*documents, i as int);
                    assert(ast->Documents_0 == *documents);
                    assert(decreases_to!(*ast => ast->Documents_0));
                }
                if !is_drawable(&documents[i]) {
                    assert(!drawable(ast@->Documents_0[i as int]));
                    return false;
                }
                i = i + 1;
            }
            true
        },
        _ => true,
    }
}

impl DotWriter {
    /// A writer that has collected nothing.
    pub fn new() -> (result: Self)
        ensures
            result@.title is None,
            result@.nodes.len() == 0,
            result@.edges.len() == 0,
    {
        Self { title: None, nodes: Vec::new(), edges: Vec::new() }
    }

    /// Adds `node` after the nodes collected so far.
    pub fn add_node(&mut self, node: Node)
        ensures
            final(self)@ == (DotWriterView { nodes: old(self)@.nodes.push(node@), ..old(self)@ }),
    {
        self.nodes.push(node);
        assert(self@.nodes =~= old(self)@.nodes.push(node@));
        assert(self@.edges =~= old(self)@.edges);
    }

    /// Adds `edge` after the edges collected so far.
    pub fn add_edge(&mut self, edge: Edge)
        ensures
            final(self)@ == (DotWriterView { edges: old(self)@.edges.push(edge@), ..old(self)@ }),
    {
        self.edges.push(edge);
        assert(self@.edges =~= old(self)@.edges.push(edge@));
        assert(self@.nodes =~= old(self)@.nodes);
    }

    /// The colour that fills the node of the declaration `ast`, which may not
    /// be of the kind title.
    pub fn fill_color(&self, ast: &Ast) -> (result: String)
        requires
            ast@ matches AstView::NameDef(name) && name.name_type != NameType::Title,
        ensures
            ast@ matches AstView::NameDef(name) && result@ == fill_color_of(name.name_type),
    {
        match ast {
            Ast::NameDef(name) => match name.name_type {
                NameType::User => "lightyellow".to_string(),
                NameType::Command => "lightblue".to_string(),
                NameType::Event => "lightyellow".to_string(),
                NameType::Aggregate => "palegreen".to_string(),
                NameType::Policy => "plum".to_string(),
                NameType::ReadModel => "lightgreen".to_string(),
                _ => "lightpink".to_string(),
            },
            _ => "lightpink".to_string(),
        }
    }

    /// The shape of the node of the declaration `ast`, which may not be of
    /// the kind title.
    pub fn shape(&self, ast: &Ast) -> (result: String)
        requires
            ast@ matches AstView::NameDef(name) && name.name_type != NameType::Title,
        ensures
            result@ == shape_of(),
    {
        "box".to_string()
    }

    /// The number of entries that the collected data gives the template of
    /// the diagram.
    pub fn context_len(&self) -> (result: usize)
        ensures
            result == context_size(self@),
    {
        let mut count: usize = 0;
        if self.title.is_some() {
            count = count + 1;
        }
        if self.nodes.len() > 0 {
            count = count + 1;
        }
        if self.edges.len() > 0 {
            count = count + 1;
        }
        count
    }

    /// Adds what `ast` shows to what has been collected: its title in place
    /// of the title, a node for each declaration and an edge for each
    /// relationship, in the order of the tree. No declaration in `ast` may be
    /// of the kind title.
    pub fn eval_ast(&mut self, ast: &Ast)
        requires
            drawable(ast@),
        ensures
            final(self)@ == evaluated(old(self)@, ast@),
        decreases ast,
    {
        match ast {
            Ast::TitleDef(title) => {
                let title = Title::new(title.name.clone(), clone_caption(&title.caption));
                self.title = Some(title);
                assert(self@.nodes =~= old(self)@.nodes);
                assert(self@.edges =~= old(self)@.edges);
            },
            Ast::NameDef(name) => {
                let node = Node::new(
                    name.name.clone(),
                    NodeType::from(&name.name_type),
                    self.shape(ast),
                    self.fill_color(ast),
                    clone_caption(&name.caption),
                );
                self.add_node(node);
            },
            Ast::Arrow(arrow) => {
                self.add_edge(
                    Edge::new(
                        EdgeType::Arrow,
                        arrow.from_ref.clone(),
                        arrow.to_ref.clone(),
                        clone_caption(&arrow.caption),
                    ),
                );
            },
            Ast::Line(line) => {
                self.add_edge(
                    Edge::new(
                        EdgeType::Line,
                        line.from_ref.clone(),
                        line.to_ref.clone(),
                        clone_caption(&line.caption),
                    ),
                );
            },
            Ast::Documents(documents) => {
                let ghost nodes = ast@->Documents_0;
                proof {
                    lemma_views_of(*documents, documents.len() as nat);
                }
                let mut i: usize = 0;
                while i < documents.len()
                    invariant
                        *ast == Ast::Documents(*documents),
                        nodes == ast@->Documents_0,
                        nodes.len() == documents.len(),
                        forall|k: int| 0 <= k < nodes.len() ==> nodes[k] == documents[k]@,
                        drawable(ast@),
                        i <= documents.len(),
                        self@ == evaluated_all(old(self)@, nodes, i as nat),
                    decreases documents.len() - i,
                {
                    proof {
                        vstd::std_specs::vec::axiom_vec_index_decreases(*documents, i as int);
                        assert(ast->Documents_0 == *documents);
                        assert(decreases_to!(*ast => ast->Documents_0));
                        assert(drawable(nodes[i as int]));
                    }
                    self.eval_ast(&documents[i]);
                    i = i + 1;
                }
            },
            Ast::Comment(_) => {},
            Ast::Empty => {},
        }
    }
}

} // verus!
