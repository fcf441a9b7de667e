//! Semantic tokens for shader sources.
//!
//! A language server colours an open document by sending one token for every
//! word that it can classify. This library collects those tokens from the
//! symbols of the document, keeps one token per text range, and encodes the
//! result in the relative form of the language server protocol.

pub mod cache;
pub mod declaration;
pub mod laws;
pub mod merge;
pub mod occurrence;
pub mod pattern;
pub mod server;
pub mod symbol;
pub mod token;
