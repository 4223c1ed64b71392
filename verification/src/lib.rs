//! Verified core of the Hurl WebAssembly client: URL building, cookie
//! selection, header parsing and the redirect-following state machine.

pub mod text;
pub mod header;
pub mod error;
pub mod url;
pub mod uri;
pub mod cookie;
pub mod client;
pub mod web;
pub mod wasm;
pub mod hurlfmt;
