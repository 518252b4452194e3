//! The syntax tree of an event model document.

use crate::ast::name_type::NameType;
use vstd::prelude::*;

pub mod name_type;

verus! {

/// What a [`Name`] stands for: its kind, its name and its caption as text.
pub struct NameView {
    pub name_type: NameType,
    pub name: Seq<char>,
    pub caption: Option<Seq<char>>,
}

/// What an [`Arrow`] stands for.
pub struct ArrowView {
    pub from_ref: Seq<char>,
    pub to_ref: Seq<char>,
    pub caption: Option<Seq<char>>,
}

/// What a [`Line`] stands for.
pub struct LineView {
    pub from_ref: Seq<char>,
    pub to_ref: Seq<char>,
    pub caption: Option<Seq<char>>,
}

/// What an [`Ast`] stands for.
pub enum AstView {
    TitleDef(NameView),
    NameDef(NameView),
    Arrow(ArrowView),
    Line(LineView),
    Comment(Seq<char>),
    Empty,
    Documents(Seq<AstView>),
}

/// The text of an optional caption.
pub open spec fn caption_view(caption: Option<String>) -> Option<Seq<char>> {
    match caption {
        Some(text) => Some(text@),
        None => None,
    }
}

/// A node of the syntax tree.
#[derive(Debug, PartialEq)]
pub enum Ast {
    /// The title of the document.
    TitleDef(Name),
    /// The declaration of a named element.
    NameDef(Name),
    /// A causal edge from one named element to another.
    Arrow(Arrow),
    /// An annotation edge between two named elements.
    Line(Line),
    /// A textual aside.
    Comment(String),
    /// Nothing.
    Empty,
    /// A whole document: its nodes in the order in which they were written.
    Documents(Vec<Ast>),
}

/// A named element: a title, or an actor, command, event, aggregate, policy or
/// read model.
#[derive(Debug, PartialEq)]
pub struct Name {
    pub name_type: NameType,
    pub name: String,
    pub caption: Option<String>,
}

/// A directed edge: `from_ref` causes `to_ref`.
#[derive(Debug, PartialEq)]
pub struct Arrow {
    pub from_ref: String,
    pub to_ref: String,
    pub caption: Option<String>,
}

/// An undirected edge that annotates `from_ref` with `to_ref`.
#[derive(Debug, PartialEq)]
pub struct Line {
    pub from_ref: String,
    pub to_ref: String,
    pub caption: Option<String>,
}

impl View for Name {
    type V = NameView;

    open spec fn view(&self) -> NameView {
        NameView {
            name_type: self.name_type,
            name: self.name@,
            caption: caption_view(self.caption),
        }
    }
}

impl View for Arrow {
    type V = ArrowView;

    open spec fn view(&self) -> ArrowView {
        ArrowView {
            from_ref: self.from_ref@,
            to_ref: self.to_ref@,
            caption: caption_view(self.caption),
        }
    }
}

impl View for Line {
    type V = LineView;

    open spec fn view(&self) -> LineView {
        LineView {
            from_ref: self.from_ref@,
            to_ref: self.to_ref@,
            caption: caption_view(self.caption),
        }
    }
}

impl View for Ast {
    type V = AstView;

    open spec fn view(&self) -> AstView
        decreases self, 0nat,
    {
        match self {
            Ast::TitleDef(name) => AstView::TitleDef(name@),
            Ast::NameDef(name) => AstView::NameDef(name@),
            Ast::Arrow(arrow) => AstView::Arrow(arrow@),
            Ast::Line(line) => AstView::Line(line@),
            Ast::Comment(text) => AstView::Comment(text@),
            Ast::Empty => AstView::Empty,
            Ast::Documents(nodes) => AstView::Documents(views_of(*nodes, nodes.len() as nat)),
        }
    }
}

/// What the first `count` of `nodes` stand for, in their order.
pub open spec fn views_of(nodes: Vec<Ast>, count: nat) -> Seq<AstView>
    decreases nodes, count,
{
    if count == 0 || count > nodes.len() {
        Seq::empty()
    } else {
        views_of(nodes, (count - 1) as nat).push(nodes[count - 1].view())
    }
}

/// The views of the first `count` nodes are the nodes' views, one for one.
pub proof fn lemma_views_of(nodes: Vec<Ast>, count: nat)
    requires
        count <= nodes.len(),
    ensures
        views_of(nodes, count).len() == count,
        forall|i: int| 0 <= i < count ==> (#[trigger] views_of(nodes, count)[i]) == nodes[i]@,
    decreases count,
{
    if count > 0 {
        lemma_views_of(nodes, (count - 1) as nat);
        assert(views_of(nodes, count) == views_of(nodes, (count - 1) as nat).push(
            nodes[count - 1].view(),
        ));
    }
}

impl NameView {
    /// A named element is well formed when its name is not empty.
    pub open spec fn wf(self) -> bool {
        self.name.len() > 0
    }
}

impl ArrowView {
    /// An arrow is well formed when neither end is an empty name.
    pub open spec fn wf(self) -> bool {
        self.from_ref.len() > 0 && self.to_ref.len() > 0
    }
}

impl LineView {
    /// A line is well formed when neither end is an empty name.
    pub open spec fn wf(self) -> bool {
        self.from_ref.len() > 0 && self.to_ref.len() > 0
    }
}

impl AstView {
    /// A tree is well formed when every name in it, declared or referred to, is
    /// not empty.
    pub open spec fn wf(self) -> bool
        decreases self,
    {
        match self {
            AstView::TitleDef(name) => name.wf(),
            AstView::NameDef(name) => name.wf(),
            AstView::Arrow(arrow) => arrow.wf(),
            AstView::Line(line) => line.wf(),
            AstView::Comment(_) => true,
            AstView::Empty => true,
            AstView::Documents(nodes) => forall|i: int|
                0 <= i < nodes.len() ==> (#[trigger] nodes[i]).wf(),
        }
    }
}

impl Name {
    /// A title named `name`. The name may not be empty.
    pub fn of_title(name: String, caption: Option<String>) -> (result: Self)
        requires
            name@.len() > 0,
        ensures
            result.name_type == NameType::Title,
            result.name == name,
            result.caption == caption,
            result@.wf(),
    {
        Self { name_type: NameType::Title, name, caption }
    }

    /// A user (an actor) named `name`. The name may not be empty.
    pub fn of_user(name: String, caption: Option<String>) -> (result: Self)
        requires
            name@.len() > 0,
        ensures
            result.name_type == NameType::User,
            result.name == name,
            result.caption == caption,
            result@.wf(),
    {
        Self { name_type: NameType::User, name, caption }
    }

    /// A command named `name`. The name may not be empty.
    pub fn of_command(name: String, caption: Option<String>) -> (result: Self)
        requires
            name@.len() > 0,
        ensures
            result.name_type == NameType::Command,
            result.name == name,
            result.caption == caption,
            result@.wf(),
    {
        Self { name_type: NameType::Command, name, caption }
    }

    /// An event named `name`. The name may not be empty.
    pub fn of_event(name: String, caption: Option<String>) -> (result: Self)
        requires
            name@.len() > 0,
        ensures
            result.name_type == NameType::Event,
            result.name == name,
            result.caption == caption,
            result@.wf(),
    {
        Self { name_type: NameType::Event, name, caption }
    }

    /// An aggregate named `name`. The name may not be empty.
    pub fn of_aggregate(name: String, caption: Option<String>) -> (result: Self)
        requires
            name@.len() > 0,
        ensures
            result.name_type == NameType::Aggregate,
            result.name == name,
            result.caption == caption,
            result@.wf(),
    {
        Self { name_type: NameType::Aggregate, name, caption }
    }

    /// A policy named `name`. The name may not be empty.
    pub fn of_policy(name: String, caption: Option<String>) -> (result: Self)
        requires
            name@.len() > 0,
        ensures
            result.name_type == NameType::Policy,
            result.name == name,
            result.caption == caption,
            result@.wf(),
    {
        Self { name_type: NameType::Policy, name, caption }
    }

    /// A read model named `name`. The name may not be empty.
    pub fn of_read_model(name: String, caption: Option<String>) -> (result: Self)
        requires
            name@.len() > 0,
        ensures
            result.name_type == NameType::ReadModel,
            result.name == name,
            result.caption == caption,
            result@.wf(),
    {
        Self { name_type: NameType::ReadModel, name, caption }
    }
}

impl Arrow {
    /// The arrow from `from_ref` to `to_ref`. Neither name may be empty.
    pub fn new(from_ref: String, to_ref: String, caption: Option<String>) -> (result: Self)
        requires
            from_ref@.len() > 0,
            to_ref@.len() > 0,
        ensures
            result.from_ref == from_ref,
            result.to_ref == to_ref,
            result.caption == caption,
            result@.wf(),
    {
        Self { from_ref, to_ref, caption }
    }
}

impl Line {
    /// The line between `from_ref` and `to_ref`. Neither name may be empty.
    pub fn new(from_ref: String, to_ref: String, caption: Option<String>) -> (result: Self)
        requires
            from_ref@.len() > 0,
            to_ref@.len() > 0,
        ensures
            result.from_ref == from_ref,
            result.to_ref == to_ref,
            result.caption == caption,
            result@.wf(),
    {
        Self { from_ref, to_ref, caption }
    }
}

/// A copy of an optional caption.
pub(crate) fn clone_caption(caption: &Option<String>) -> (result: Option<String>)
    ensures
        result == *caption,
{
    match caption {
        Some(text) => Some(text.clone()),
        None => None,
    }
}

impl Clone for Name {
    fn clone(&self) -> (result: Self)
        ensures
            result == *self,
    {
        Self {
            name_type: self.name_type,
            name: self.name.clone(),
            caption: clone_caption(&self.caption),
        }
    }
}

impl Clone for Arrow {
    fn clone(&self) -> (result: Self)
        ensures
            result == *self,
    {
        Self {
            from_ref: self.from_ref.clone(),
            to_ref: self.to_ref.clone(),
            caption: clone_caption(&self.caption),
        }
    }
}

impl Clone for Line {
    fn clone(&self) -> (result: Self)
        ensures
            result == *self,
    {
        Self {
            from_ref: self.from_ref.clone(),
            to_ref: self.to_ref.clone(),
            caption: clone_caption(&self.caption),
        }
    }
}

impl Clone for Ast {
    fn clone(&self) -> (result: Self)
        ensures
            result@ == self@,
        decreases self,
    {
        match self {
            Ast::TitleDef(name) => Ast::TitleDef(name.clone()),
            Ast::NameDef(name) => Ast::NameDef(name.clone()),
            Ast::Arrow(arrow) => Ast::Arrow(arrow.clone()),
            Ast::Line(line) => Ast::Line(line.clone()),
            Ast::Comment(text) => Ast::Comment(text.clone()),
            Ast::Empty => Ast::Empty,
            Ast::Documents(nodes) => {
                let mut copies: Vec<Ast> = Vec::new();
                let mut i: usize = 0;
                while i < nodes.len()
                    invariant
                        *self == Ast::Documents(*nodes),
                        i <= nodes.len(),
                        copies.len() == i,
                        forall|k: int| 0 <= k < i ==> (#[trigger] copies[k])@ == nodes[k]@,
                    decreases nodes.len() - i,
                {
                    proof {
                        vstd::std_specs::vec::axiom_vec_index_decreases(*nodes, i as int);
                        assert(self->Documents_0 == *nodes);
                        assert(decreases_to!(*self => self->Documents_0));
                    }
                    let copy = nodes[i].clone();
                    copies.push(copy);
                    i = i + 1;
                }
                let result = Ast::Documents(copies);
                proof {
                    lemma_views_of(copies, copies.len() as nat);
                    lemma_views_of(*nodes, nodes.len() as nat);
                    assert(result@->Documents_0 =~= self@->Documents_0);
                }
                result
            },
        }
    }
}

} // verus!
