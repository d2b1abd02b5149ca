//! A segment trie that resolves an HTTP method and a URL path to one
//! registered handler, together with the table builder and the dispatch
//! protocol around it.
//!
//! Routes are declared as `(method, pattern, handler)`; a segment of a
//! pattern that starts with `:` captures the segment in its place. Each
//! node of the trie keeps one route: registering a second one for the same
//! pattern replaces the first, whatever the two methods are.

pub mod dispatch;
pub mod laws;
pub mod method;
pub mod model;
pub mod params;
pub mod path;
pub mod table;
pub mod trie;

pub use dispatch::{dispatch, Outcome, Request};
pub use params::Params;
pub use path::split_path;
pub use table::{generate_routes, route, Route};
pub use trie::{Trie, TrieNode};
