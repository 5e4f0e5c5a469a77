//! Interactive introspection of a live, strongly typed object graph.
//!
//! A caller registers named values in a root dictionary and then evaluates
//! path-like expressions (`state.m[3]`, `basic.u_16`, `root.field = 5`)
//! against them.  Each query returns either a rendered tree of the value
//! reached, or a structured error, and in both cases an `Assist` payload
//! describing how much of the input was valid and what could come next.

pub mod access;
pub mod always_equal;
pub mod assist;
pub mod climber;
pub mod deser;
pub mod expect;
pub mod lexer;
pub mod node_tree;
pub mod print;
pub mod prompt;
pub mod reflector;
pub mod root;
pub mod tokens;

pub use crate::access::{
    deser_assign, AssignError, CallError, Cell, Enum, EnumValue, Function, Graph, ListValue,
    LockKind, LockState, LockValue, MapValue, MethodKind, SetValue, Struct, StructKind,
    StructValue, TupleValue, Value,
};
pub use crate::always_equal::AlwaysEqual;
pub use crate::assist::{Assist, NextOptions};
pub use crate::climber::{ClimbError, Climber};
pub use crate::lexer::{parse_to_tokens, ExprParser, TokenError};
pub use crate::deser::{Deser, DeserError, Tracker};
pub use crate::expect::ExpectTree;
pub use crate::node_tree::{NodeInfo, NodeTree};
pub use crate::print::{pretty_format, NodePrinterSettings};
pub use crate::prompt::{CmdAction, Commands, Interaction, Response, Settings};
pub use crate::reflector::Reflector;
pub use crate::root::{Root, RootLocal, RootSend};
pub use crate::tokens::{Token, TokenKind, TokenVec};
