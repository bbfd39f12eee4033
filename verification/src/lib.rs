//! Core of a structural text editor: an arena of syntax-tree nodes, a node
//! contract (`Ast`) that every tree grammar implements, a token-stream
//! rendering pipeline that turns a tree into text, and mutation operations
//! (insert/delete child) that fail with typed errors instead of panicking.

pub mod arena;
pub mod ast;
pub mod decimal;
pub mod display_token;
pub mod json;
