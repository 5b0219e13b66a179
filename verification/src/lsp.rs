//! Language-server helpers: file URIs, and the session that answers
//! editor queries from the index.

pub mod position;
pub mod protocol;
pub mod session;
pub mod uri;
