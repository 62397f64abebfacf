//! Core of an interactive binary explorer: a plain-value model of a parsed
//! object file, the derived indices over it, symbol classification and
//! sizing, address resolution through GOT slots, and the decisions and
//! output of the `search` and `show` queries, with the session wire framing.

pub mod error;
pub mod model;
pub mod explorer;
pub mod cache;
pub mod resolve;
pub mod text;
pub mod pattern;
pub mod search;
pub mod disasm;
pub mod show;
pub mod printers;
pub mod session;

