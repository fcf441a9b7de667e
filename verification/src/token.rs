//! Token types, positions, and the two forms of a token.

use vstd::prelude::*;

verus! {

pub const TOKEN_TYPE_MACRO: u32 = 0;

pub const TOKEN_TYPE_PARAMETER: u32 = 1;

pub const TOKEN_TYPE_ENUM_MEMBER: u32 = 2;

pub const TOKEN_TYPE_ENUM: u32 = 3;

pub const TOKEN_TYPE_VARIABLE: u32 = 4;

pub const TOKEN_TYPE_FUNCTION: u32 = 5;

pub const TOKEN_TYPE_TYPE: u32 = 6;

pub const TOKEN_TYPE_PROPERTY: u32 = 7;

/// A place in a document: a line and a position in that line, both from zero.
#[derive(Clone, Copy, Debug, PartialEq, Eq, Structural)]
pub struct Position {
    pub line: u32,
    pub pos: u32,
}

/// The text between two positions.
#[derive(Clone, Copy, Debug, PartialEq, Eq, Structural)]
pub struct Range {
    pub start: Position,
    pub end: Position,
}

/// A token as the protocol sends it. In an encoded stream the line and the
/// start are relative to the token before; a token that has not been encoded
/// yet holds its absolute line and start in the same fields.
#[derive(Clone, Copy, Debug, PartialEq, Eq, Structural)]
pub struct SemanticToken {
    pub delta_line: u32,
    pub delta_start: u32,
    pub length: u32,
    pub token_type: u32,
    pub token_modifiers_bitset: u32,
}

/// A token at an absolute place in the document.
#[derive(Clone, Copy, Debug, PartialEq, Eq, Structural)]
pub struct AbsoluteSemanticToken {
    pub line: u32,
    pub start: u32,
    pub length: u32,
    pub token_type: u32,
    pub token_modifiers_bitset: u32,
}

/// The token without modifiers at a place, of a length and a type.
pub open spec fn plain_token(
    line: u32,
    start: u32,
    length: u32,
    token_type: u32,
) -> AbsoluteSemanticToken {
    AbsoluteSemanticToken { line, start, length, token_type, token_modifiers_bitset: 0 }
}

/// An unencoded protocol token, read as a token at an absolute place.
pub open spec fn as_absolute(token: SemanticToken) -> AbsoluteSemanticToken {
    AbsoluteSemanticToken {
        line: token.delta_line,
        start: token.delta_start,
        length: token.length,
        token_type: token.token_type,
        token_modifiers_bitset: token.token_modifiers_bitset,
    }
}

/// What every token has that the library produces: one of the eight token
/// types and no modifier.
pub open spec fn is_plain(token: AbsoluteSemanticToken) -> bool {
    token.token_type <= TOKEN_TYPE_PROPERTY && token.token_modifiers_bitset == 0
}

impl AbsoluteSemanticToken {
    /// A token without modifiers.
    pub fn new(line: u32, start: u32, length: u32, token_type: u32) -> (token: Self)
        ensures
            token == plain_token(line, start, length, token_type),
    {
        Self { line, start, length, token_type, token_modifiers_bitset: 0 }
    }

    /// Reads an unencoded protocol token, whose fields hold absolute values.
    pub fn from_semantic_token(token: SemanticToken) -> (absolute: Self)
        ensures
            absolute == as_absolute(token),
    {
        Self {
            line: token.delta_line,
            start: token.delta_start,
            length: token.length,
            token_type: token.token_type,
            token_modifiers_bitset: token.token_modifiers_bitset,
        }
    }
}

} // verus!
