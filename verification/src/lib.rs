//! Shell session engine: terminal byte-stream parsing with an embedded
//! shell-integration marker protocol, derivation of command "blocks" from
//! the marker events, an incremental render-diff cache over screen rows,
//! and plain-text export of recorded blocks.

pub mod block;
pub mod cache;
pub mod config;
pub mod events;
pub mod export;
pub mod lifecycle;
pub mod parser;
pub mod pump;
pub mod query;
pub mod render;
pub mod scan;
pub mod text;
pub mod vt;

pub use block::Block;
pub use events::{GitStatus, ParserEvent};
pub use text::html_escape;
