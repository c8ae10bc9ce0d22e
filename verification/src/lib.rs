//! An embeddable interactive command shell engine: a command tree, a
//! completion resolver over it, and the decisions of the dispatch loop.

pub mod command;
pub mod completer;
pub mod dispatch;
pub mod guarantees;
pub mod help;
pub mod registry;
pub mod suggestion;
pub mod text;
