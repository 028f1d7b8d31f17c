//! A command-line style parser for chat commands.
//!
//! Commands are declared as a tree: groups hold sub-groups and commands, a
//! command declares the parameters it takes. A line is cut into tokens by
//! [`split_shell`] and matched against the tree by [`Node::try_match`], which
//! hands back the command found, the parameters given and the permission
//! that running it needs, or tells why the line did not match.
//!
//! ```text
//! misc concat -string1 "Hello" -string2 " world"
//! ```
//!
//! The functions state what they return over the mathematical values of
//! their arguments, and are proved against that. A copy of a container is
//! stated over what copying one of its values gives, which is for the type
//! of the values to say.
//!
//! Beside the parser stands [`mosaic`], the layout of nine pictures as one.

pub mod text;
pub mod search;
pub mod value_type;
pub mod matching;
pub mod error;
pub mod container;
pub mod tree;
pub mod tokenizer;
pub mod matcher;
pub mod ids;
pub mod walk;
pub mod laws;
pub mod mosaic;

pub use container::{Container, Named};
pub use error::ParseError;
pub use tokenizer::split_shell;
pub use tree::{Argument, Command, Group, Node};
pub use value_type::ValueType;
pub use walk::{Iter, Type};
