//! Tool-execution core for a game-editor automation command line: a local
//! code-intelligence engine (symbol extraction, a persisted index, search
//! and paginated reference lookup), the pure logic of a language-server
//! client and of a framed remote-editor protocol, and the dispatch policy
//! that ties the three backends together.

pub mod config;
pub mod dispatch;
pub mod engine;
pub mod extract;
pub mod index;
pub mod instances;
pub mod laws;
pub mod lsp;
pub mod paths;
pub mod remote;
pub mod text;
