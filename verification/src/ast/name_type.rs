//! The kinds of named element.

use vstd::prelude::*;

verus! {

/// The kind of a named element of an event model.
#[derive(Debug, Clone, Copy, PartialEq, Eq, Structural)]
pub enum NameType {
    Title,
    User,
    Command,
    Event,
    Aggregate,
    Policy,
    ReadModel,
    HotSpot,
}

/// The name under which a kind is shown.
pub open spec fn name_type_text(name_type: NameType) -> Seq<char> {
    match name_type {
        NameType::Title => "Title"@,
        NameType::User => "User"@,
        NameType::Command => "Command"@,
        NameType::Event => "Event"@,
        NameType::Aggregate => "Aggregate"@,
        NameType::Policy => "Policy"@,
        NameType::ReadModel => "ReadModel"@,
        NameType::HotSpot => "HotSpot"@,
    }
}

impl NameType {
    /// The kind's name as text.
    pub fn to_string(&self) -> (text: String)
        ensures
            text@ == name_type_text(*self),
    {
        match self {
            NameType::Title => "Title".to_string(),
            NameType::User => "User".to_string(),
            NameType::Command => "Command".to_string(),
            NameType::Event => "Event".to_string(),
            NameType::Aggregate => "Aggregate".to_string(),
            NameType::Policy => "Policy".to_string(),
            NameType::ReadModel => "ReadModel".to_string(),
            NameType::HotSpot => "HotSpot".to_string(),
        }
    }
}

} // verus!
