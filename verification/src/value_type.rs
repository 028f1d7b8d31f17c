//! The kind of value a command parameter is declared to carry.

use vstd::prelude::*;

verus! {

/// The kinds of option a chat platform knows. Two of them describe nesting
/// rather than a value and are never the kind of an [`crate::tree::Argument`].
#[derive(Clone, Copy, Debug, PartialEq, Eq, Structural)]
pub enum ValueType {
    SubCommand,
    SubCommandGroup,
    String,
    Integer,
    Boolean,
    User,
    Channel,
    Role,
    Mentionable,
    Number,
    Unknown,
}

impl ValueType {
    /// Whether a parameter may be declared with this kind.
    pub open spec fn is_value_kind(self) -> bool {
        !(self is SubCommand) && !(self is SubCommandGroup)
    }

    /// The lower-case label of the kind, as a sequence of characters.
    pub open spec fn label(self) -> Seq<char> {
        match self {
            ValueType::String => "string"@,
            ValueType::Integer => "integer"@,
            ValueType::Boolean => "boolean"@,
            ValueType::User => "user"@,
            ValueType::Channel => "channel"@,
            ValueType::Role => "role"@,
            ValueType::Mentionable => "mentionable"@,
            ValueType::Number => "number"@,
            _ => "unknown"@,
        }
    }

    /// Tells whether a parameter may be declared with this kind.
    pub fn accepts_value(self) -> (r: bool)
        ensures
            r == self.is_value_kind(),
    {
        match self {
            ValueType::SubCommand => false,
            ValueType::SubCommandGroup => false,
            _ => true,
        }
    }
}

} // verus!
