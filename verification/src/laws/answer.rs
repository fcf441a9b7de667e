//! What of a document is in the answer, and in which form.

use vstd::prelude::*;
use vstd::utf8::encode_utf8;

use crate::declaration::declaration_tokens;
use crate::laws::occurrences::law_macro_found;
use crate::laws::{
    law_precedence_distinct, law_tokens_plain, lemma_cover_index, lemma_survivor_index,
};
use crate::merge::{comes_before, encoded, is_merge, precedence, relative_token, starts_ordered};
use crate::occurrence::{enum_tokens, identifier_tokens, macro_tokens};
use crate::pattern::{regex_matches, text_from, word_pattern};
use crate::server::{absolute_tokens, document_tokens, grown_capacity};
use crate::symbol::{position_of, scope_start, Document};
use crate::token::{as_absolute, plain_token, AbsoluteSemanticToken, Position, SemanticToken};

verus! {

/// A token that is made for a place has that place, and no modifier. Reading an
/// unencoded token changes none of its values.
pub proof fn law_token_values(
    line: u32,
    start: u32,
    length: u32,
    token_type: u32,
    token: SemanticToken,
)
    ensures
        plain_token(line, start, length, token_type).line == line,
        plain_token(line, start, length, token_type).start == start,
        plain_token(line, start, length, token_type).length == length,
        plain_token(line, start, length, token_type).token_type == token_type,
        plain_token(line, start, length, token_type).token_modifiers_bitset == 0,
        as_absolute(token).line == token.delta_line,
        as_absolute(token).start == token.delta_start,
        as_absolute(token).length == token.length,
        as_absolute(token).token_type == token.token_type,
        as_absolute(token).token_modifiers_bitset == token.token_modifiers_bitset,
{
}

/// A list of unencoded tokens is read token by token.
pub proof fn law_tokens_read(tokens: Seq<SemanticToken>)
    ensures
        absolute_tokens(tokens).len() == tokens.len(),
        forall|k: int|
            0 <= k < tokens.len() ==> {
                &&& (#[trigger] absolute_tokens(tokens)[k]).line == tokens[k].delta_line
                &&& absolute_tokens(tokens)[k].start == tokens[k].delta_start
                &&& absolute_tokens(tokens)[k].length == tokens[k].length
                &&& absolute_tokens(tokens)[k].token_type == tokens[k].token_type
                &&& absolute_tokens(tokens)[k].token_modifiers_bitset
                    == tokens[k].token_modifiers_bitset
            },
{
}

/// The precedence of the token types: macros are in front, then enum members,
/// parameters, properties, functions, enums, types and variables, and then all that
/// is none of these.
pub proof fn law_precedence_order(unknown: u32)
    requires
        unknown > 7,
    ensures
        8 == precedence(0) == precedence(2) + 1,
        precedence(2) == precedence(1) + 1,
        precedence(1) == precedence(7) + 1,
        precedence(7) == precedence(5) + 1,
        precedence(5) == precedence(3) + 1,
        precedence(3) == precedence(6) + 1,
        precedence(6) == precedence(4) + 1,
        precedence(4) == precedence(unknown) + 1,
{
}

/// Each token of a merge is the first of those on its range that have the highest
/// precedence there.
pub proof fn law_merge_keeps_first(
    tokens: Seq<AbsoluteSemanticToken>,
    merged: Seq<AbsoluteSemanticToken>,
    k: int,
) -> (i: int)
    requires
        is_merge(tokens, merged),
        0 <= k < merged.len(),
    ensures
        0 <= i < tokens.len(),
        tokens[i] == merged[k],
        forall|j: int|
            0 <= j < tokens.len() && (#[trigger] tokens[j]).line == merged[k].line
                && tokens[j].start == merged[k].start && tokens[j].length == merged[k].length ==> {
                &&& precedence(tokens[j].token_type) <= precedence(merged[k].token_type)
                &&& j < i ==> precedence(tokens[j].token_type) != precedence(merged[k].token_type)
            },
{
    lemma_survivor_index(tokens, merged, k)
}

/// No range is lost in a merge: on that of each token there is one.
pub proof fn law_merge_covers(
    tokens: Seq<AbsoluteSemanticToken>,
    merged: Seq<AbsoluteSemanticToken>,
    i: int,
) -> (k: int)
    requires
        is_merge(tokens, merged),
        0 <= i < tokens.len(),
    ensures
        0 <= k < merged.len(),
        merged[k].line == tokens[i].line,
        merged[k].start == tokens[i].start,
        merged[k].length == tokens[i].length,
        precedence(tokens[i].token_type) <= precedence(merged[k].token_type),
{
    let k = lemma_cover_index(tokens, merged, i);
    lemma_survivor_index(tokens, merged, k);
    k
}

/// The tokens of a merge are in order: by line, on one line by start, and at one start
/// by length.
pub proof fn law_merge_ordered(
    tokens: Seq<AbsoluteSemanticToken>,
    merged: Seq<AbsoluteSemanticToken>,
    i: int,
    j: int,
)
    requires
        is_merge(tokens, merged),
        0 <= i < j < merged.len(),
    ensures
        merged[i].line <= merged[j].line,
        merged[i].line == merged[j].line ==> merged[i].start <= merged[j].start,
        merged[i].line == merged[j].line && merged[i].start == merged[j].start
            ==> merged[i].length < merged[j].length,
{
    assert(comes_before(merged[i], merged[j]));
}

/// Tokens whose starts are in order can be encoded, one for one. Adding up the lines
/// gives the lines back, and so does adding up the starts on one line; the first token
/// of a line has its own start. Lengths, types and modifiers stay.
pub proof fn law_encoded_relative(tokens: Seq<AbsoluteSemanticToken>)
    requires
        forall|i: int, j: int|
            0 <= i < j < tokens.len() ==> (#[trigger] tokens[i]).line < (
            #[trigger] tokens[j]).line || (tokens[i].line == tokens[j].line && tokens[i].start
                <= tokens[j].start),
    ensures
        starts_ordered(tokens),
        encoded(tokens).len() == tokens.len(),
        tokens.len() > 0 ==> encoded(tokens)[0].delta_line == tokens[0].line
            && encoded(tokens)[0].delta_start == tokens[0].start,
        forall|i: int|
            0 < i < tokens.len() ==> {
                let before = tokens[i - 1];
                let data = #[trigger] encoded(tokens)[i];
                &&& before.line + data.delta_line == tokens[i].line
                &&& data.delta_line == 0 ==> before.start + data.delta_start == tokens[i].start
                &&& data.delta_line != 0 ==> data.delta_start == tokens[i].start
            },
        forall|i: int|
            0 <= i < tokens.len() ==> {
                let data = #[trigger] encoded(tokens)[i];
                &&& data.length == tokens[i].length
                &&& data.token_type == tokens[i].token_type
                &&& data.token_modifiers_bitset == tokens[i].token_modifiers_bitset
            },
{
    assert forall|i: int| 0 < i < tokens.len() implies {
        let before = tokens[i - 1];
        let data = #[trigger] encoded(tokens)[i];
        &&& before.line + data.delta_line == tokens[i].line
        &&& data.delta_line == 0 ==> before.start + data.delta_start == tokens[i].start
        &&& data.delta_line != 0 ==> data.delta_start == tokens[i].start
    } by {
        assert(encoded(tokens)[i] == relative_token(tokens, i));
        assert(tokens[i - 1].line <= tokens[i].line);
    }
}

/// The tokens of a document are those of its macros, of its enums, of its declarations
/// and of its identifiers, each of them once and in this order.
pub proof fn law_sources_joined(document: Document)
    ensures
        ({
            let tokens = document_tokens(document);
            let a = macro_tokens(document).len() as int;
            let b = a + enum_tokens(document).len();
            let c = b + declaration_tokens(document).len();
            let d = c + identifier_tokens(document).len();
            &&& tokens.len() == d
            &&& tokens.subrange(0, a) == absolute_tokens(macro_tokens(document))
            &&& tokens.subrange(a, b) == absolute_tokens(enum_tokens(document))
            &&& tokens.subrange(b, c) == declaration_tokens(document)
            &&& tokens.subrange(c, d) == identifier_tokens(document)
        }),
{
    let tokens = document_tokens(document);
    let a = macro_tokens(document).len() as int;
    let b = a + enum_tokens(document).len();
    let c = b + declaration_tokens(document).len();
    let d = c + identifier_tokens(document).len();
    assert(tokens.subrange(0, a) =~= absolute_tokens(macro_tokens(document)));
    assert(tokens.subrange(a, b) =~= absolute_tokens(enum_tokens(document)));
    assert(tokens.subrange(b, c) =~= declaration_tokens(document));
    assert(tokens.subrange(c, d) =~= identifier_tokens(document));
}

/// Every token that was found is in the answer, or one of a higher precedence on the
/// same range.
pub proof fn law_found_is_answered(
    document: Document,
    merged: Seq<AbsoluteSemanticToken>,
    token: AbsoluteSemanticToken,
) -> (k: int)
    requires
        is_merge(document_tokens(document), merged),
        absolute_tokens(macro_tokens(document)).contains(token) || absolute_tokens(
            enum_tokens(document),
        ).contains(token) || declaration_tokens(document).contains(token) || identifier_tokens(
            document,
        ).contains(token),
    ensures
        0 <= k < merged.len(),
        merged[k].line == token.line,
        merged[k].start == token.start,
        merged[k].length == token.length,
        merged[k].token_type == token.token_type || precedence(token.token_type) < precedence(
            merged[k].token_type,
        ),
{
    law_tokens_plain(document, merged);
    let tokens = document_tokens(document);
    let macros = absolute_tokens(macro_tokens(document));
    let enums = absolute_tokens(enum_tokens(document));
    let declarations = declaration_tokens(document);
    let identifiers = identifier_tokens(document);
    let i = if macros.contains(token) {
        macros.index_of(token)
    } else if enums.contains(token) {
        macros.len() + enums.index_of(token)
    } else if declarations.contains(token) {
        macros.len() + enums.len() + declarations.index_of(token)
    } else {
        macros.len() + enums.len() + declarations.len() + identifiers.index_of(token)
    };
    assert(tokens[i] == token);
    let k = law_merge_covers(tokens, merged, i);
    if merged[k].token_type != token.token_type {
        law_precedence_distinct(token.token_type, merged[k].token_type);
    }
    k
}

/// Nothing is in the answer that was not found.
pub proof fn law_answered_is_found(
    document: Document,
    merged: Seq<AbsoluteSemanticToken>,
    k: int,
)
    requires
        is_merge(document_tokens(document), merged),
        0 <= k < merged.len(),
    ensures
        absolute_tokens(macro_tokens(document)).contains(merged[k]) || absolute_tokens(
            enum_tokens(document),
        ).contains(merged[k]) || declaration_tokens(document).contains(merged[k])
            || identifier_tokens(document).contains(merged[k]),
{
    let i = law_merge_keeps_first(document_tokens(document), merged, k);
    let macros = absolute_tokens(macro_tokens(document));
    let enums = absolute_tokens(enum_tokens(document));
    let declarations = declaration_tokens(document);
    let identifiers = identifier_tokens(document);
    let a = macros.len() as int;
    let b = a + enums.len();
    let c = b + declarations.len();
    if i < a {
        assert(macros[i] == merged[k]);
    } else if i < b {
        assert(enums[i - a] == merged[k]);
    } else if i < c {
        assert(declarations[i - b] == merged[k]);
    } else {
        assert(identifiers[i - c] == merged[k]);
    }
}

/// Every occurrence of a macro in its scope is a macro in the answer, whatever else
/// was found there.
pub proof fn law_macro_answered(
    document: Document,
    merged: Seq<AbsoluteSemanticToken>,
    i: int,
    start: usize,
    m: int,
    position: Position,
) -> (k: int)
    requires
        is_merge(document_tokens(document), merged),
        0 <= i < document.symbols.macros.len(),
        scope_start(document.symbols.macros[i], document.file_path@) == Some(start),
        0 <= m < regex_matches(
            word_pattern(document.symbols.macros[i].label@),
            text_from(document.content@, start as int),
        ).len(),
        position_of(
            document.positions@,
            start + regex_matches(
                word_pattern(document.symbols.macros[i].label@),
                text_from(document.content@, start as int),
            )[m].0,
        ) == Some(position),
    ensures
        0 <= k < merged.len(),
        merged[k].line == position.line,
        merged[k].start == position.pos,
        merged[k].length == encode_utf8(document.symbols.macros[i].label@).len()
            % 0x1_0000_0000,
        merged[k].token_type == 0,
{
    law_macro_found(document, i, start, m, position);
    let token = SemanticToken {
        delta_line: position.line,
        delta_start: position.pos,
        length: (encode_utf8(document.symbols.macros[i].label@).len() % 0x1_0000_0000) as u32,
        token_type: 0,
        token_modifiers_bitset: 0,
    };
    let n = macro_tokens(document).index_of(token);
    assert(absolute_tokens(macro_tokens(document))[n] == as_absolute(token));
    law_found_is_answered(document, merged, as_absolute(token))
}

/// How far the cache grows. A cache that is large enough stays, and so does one for a
/// document over the limit. Else the capacity is six fifths of the number of tokens,
/// rounded down, or the limit where that is less.
pub proof fn law_capacity_exact(capacity: nat, count: nat)
    ensures
        ({
            let grown = grown_capacity(capacity, count);
            &&& count <= capacity ==> grown == capacity
            &&& count > 2000 ==> grown == capacity
            &&& capacity < count <= 2000 ==> grown <= 2000 && 5 * grown <= 6 * count
            &&& capacity < count <= 2000 && grown < 2000 ==> 6 * count < 5 * (grown + 1)
        }),
{
}

} // verus!
