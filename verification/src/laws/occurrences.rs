//! Which tokens the words of the content have.

use vstd::prelude::*;
use vstd::utf8::encode_utf8;

use crate::declaration::{label_length, parameter_keys, word_class};
use crate::laws::listing::{
    lemma_filter_map_count, lemma_filter_map_has, lemma_filter_map_listing, lemma_flatten_has,
    lemma_flatten_part,
};
use crate::occurrence::{
    enum_tokens, found_token, identifier_token, identifier_tokens, label_tokens, macro_tokens,
    symbol_enum_tokens, symbol_macro_tokens, value_tokens,
};
use crate::pattern::{regex_matches, text_from, word_pattern};
use crate::symbol::{has_scope, position_of, scope_start, Declaration, Document, Symbol, SymbolData};
use crate::token::{AbsoluteSemanticToken, Position, SemanticToken};

verus! {

/// The tokens of matches are, in order, one for each match whose byte offset has a
/// position: at that position, of the length and the type that were asked for, and
/// without modifiers. `at` tells which match each token is of. There are as many
/// tokens as matches with a position.
pub proof fn law_occurrences_listed(
    positions: Seq<Option<Position>>,
    ranges: Seq<(usize, usize)>,
    start: int,
    length: u32,
    token_type: u32,
) -> (at: Seq<int>)
    ensures
        ({
            let tokens = ranges.filter_map(found_token(positions, start, length, token_type));
            &&& at.len() == tokens.len()
            &&& forall|k: int|
                0 <= k < at.len() ==> {
                    &&& 0 <= (#[trigger] at[k]) < ranges.len()
                    &&& position_of(positions, start + ranges[at[k]].0) == Some(
                        Position { line: tokens[k].delta_line, pos: tokens[k].delta_start },
                    )
                    &&& tokens[k].length == length
                    &&& tokens[k].token_type == token_type
                    &&& tokens[k].token_modifiers_bitset == 0
                }
            &&& forall|j: int, k: int|
                0 <= j < k < at.len() ==> (#[trigger] at[j]) < (#[trigger] at[k])
            &&& forall|m: int|
                0 <= m < ranges.len() && position_of(
                    positions,
                    start + (#[trigger] ranges[m]).0,
                ) is Some ==> at.contains(m)
            &&& tokens.len() == ranges.filter(
                |range: (usize, usize)| position_of(positions, start + range.0) is Some,
            ).len()
        }),
{
    let tokens = ranges.filter_map(found_token(positions, start, length, token_type));
    let f = found_token(positions, start, length, token_type);
    let at = lemma_filter_map_listing(ranges, f);
    assert forall|k: int| 0 <= k < at.len() implies {
        &&& 0 <= (#[trigger] at[k]) < ranges.len()
        &&& position_of(positions, start + ranges[at[k]].0) == Some(
            Position { line: tokens[k].delta_line, pos: tokens[k].delta_start },
        )
        &&& tokens[k].length == length
        &&& tokens[k].token_type == token_type
        &&& tokens[k].token_modifiers_bitset == 0
    } by {
        assert(f(ranges[at[k]]) == Some(tokens[k]));
    }
    lemma_filter_map_count(
        ranges,
        f,
        |range: (usize, usize)| position_of(positions, start + range.0) is Some,
    );
    at
}

/// The tokens of a label are those of all matches of its word pattern in the text
/// from `start` on, each as long as the label has bytes.
pub proof fn law_label_all(document: Document, label: Seq<char>, start: int, token_type: u32)
    ensures
        label_tokens(document, label, start, token_type) == regex_matches(
            word_pattern(label),
            text_from(document.content@, start),
        ).filter_map(
            found_token(
                document.positions@,
                start,
                (encode_utf8(label).len() % 0x1_0000_0000) as u32,
                token_type,
            ),
        ),
{
}

/// A match of a label with a position has a token there.
proof fn lemma_label_found(
    document: Document,
    label: Seq<char>,
    start: int,
    token_type: u32,
    m: int,
    position: Position,
)
    requires
        0 <= m < regex_matches(
            word_pattern(label),
            text_from(document.content@, start),
        ).len(),
        position_of(
            document.positions@,
            start + regex_matches(word_pattern(label), text_from(document.content@, start))[m].0,
        ) == Some(position),
    ensures
        label_tokens(document, label, start, token_type).contains(
            SemanticToken {
                delta_line: position.line,
                delta_start: position.pos,
                length: (encode_utf8(label).len() % 0x1_0000_0000) as u32,
                token_type,
                token_modifiers_bitset: 0,
            },
        ),
{
    let matches = regex_matches(word_pattern(label), text_from(document.content@, start));
    let f = found_token(document.positions@, start, label_length(label), token_type);
    lemma_filter_map_has(matches, f, m, f(matches[m]).unwrap());
}

/// Every occurrence of every macro is found: each match of the macro's word pattern
/// from the start of its scope on whose byte offset has a position has a macro
/// token there, as long as the label.
pub proof fn law_macro_found(document: Document, i: int, start: usize, m: int, position: Position)
    requires
        0 <= i < document.symbols.macros.len(),
        scope_start(document.symbols.macros[i], document.file_path@) == Some(start),
        0 <= m < regex_matches(
            word_pattern(document.symbols.macros[i].label@),
            text_from(document.content@, start as int),
        ).len(),
        position_of(
            document.positions@,
            start + regex_matches(
                word_pattern(document.symbols.macros[i].label@),
                text_from(document.content@, start as int),
            )[m].0,
        ) == Some(position),
    ensures
        macro_tokens(document).contains(
            SemanticToken {
                delta_line: position.line,
                delta_start: position.pos,
                length: (encode_utf8(document.symbols.macros[i].label@).len()
                    % 0x1_0000_0000) as u32,
                token_type: 0,
                token_modifiers_bitset: 0,
            },
        ),
{
    let label = document.symbols.macros[i].label@;
    lemma_label_found(document, label, start as int, 0, m, position);
    let parts = document.symbols.macros@.map_values(symbol_macro_tokens(document));
    assert(parts[i] == label_tokens(document, label, start as int, 0));
    lemma_flatten_has(
        parts,
        i,
        SemanticToken {
            delta_line: position.line,
            delta_start: position.pos,
            length: (encode_utf8(label).len() % 0x1_0000_0000) as u32,
            token_type: 0,
            token_modifiers_bitset: 0,
        },
    );
}

/// The macro tokens are those of the macros one after the other: for each macro all
/// the tokens of its label from the start of its scope on, and no others.
pub proof fn law_macros_listed(document: Document) -> (parts: Seq<Seq<SemanticToken>>)
    requires
        document.valid_macros(),
    ensures
        parts.len() == document.symbols.macros.len(),
        macro_tokens(document) == parts.flatten(),
        forall|i: int|
            0 <= i < parts.len() ==> (scope_start(
                document.symbols.macros[i],
                document.file_path@,
            ) matches Some(start) && #[trigger] parts[i] == label_tokens(
                document,
                document.symbols.macros[i].label@,
                start as int,
                0,
            )),
{
    let parts = document.symbols.macros@.map_values(symbol_macro_tokens(document));
    assert forall|i: int| 0 <= i < parts.len() implies (scope_start(
        document.symbols.macros[i],
        document.file_path@,
    ) matches Some(start) && #[trigger] parts[i] == label_tokens(
        document,
        document.symbols.macros[i].label@,
        start as int,
        0,
    )) by {
        assert(has_scope(
            document.symbols.macros[i],
            document.file_path@,
            document.content@,
        ));
    }
    parts
}

/// Every macro token is an occurrence: of some macro, at the position of a match of
/// its word pattern from the start of its scope on.
pub proof fn law_macro_only(document: Document, token: SemanticToken)
    requires
        document.valid_macros(),
        macro_tokens(document).contains(token),
    ensures
        token.token_type == 0,
        token.token_modifiers_bitset == 0,
        exists|i: int, start: usize, m: int|
            {
                let symbol = document.symbols.macros[i];
                let matches = regex_matches(
                    word_pattern(symbol.label@),
                    text_from(document.content@, start as int),
                );
                &&& 0 <= i < document.symbols.macros.len()
                &&& scope_start(symbol, document.file_path@) == Some(start)
                &&& 0 <= m < matches.len()
                &&& #[trigger] position_of(
                    document.positions@,
                    start + regex_matches(
                        word_pattern(document.symbols.macros[i].label@),
                        text_from(document.content@, start as int),
                    )[m].0,
                ) == Some(Position { line: token.delta_line, pos: token.delta_start })
                &&& token.length == encode_utf8(symbol.label@).len() % 0x1_0000_0000
            },
{
    let parts = document.symbols.macros@.map_values(symbol_macro_tokens(document));
    let i = lemma_flatten_part(parts, token);
    let symbol = document.symbols.macros[i];
    assert(has_scope(
        document.symbols.macros[i],
        document.file_path@,
        document.content@,
    ));
    let start = scope_start(symbol, document.file_path@)->0;
    let tokens = label_tokens(document, symbol.label@, start as int, 0);
    let matches = regex_matches(
        word_pattern(symbol.label@),
        text_from(document.content@, start as int),
    );
    let f = found_token(document.positions@, start as int, label_length(symbol.label@), 0);
    assert(parts[i] == tokens);
    let at = lemma_filter_map_listing(matches, f);
    let k = tokens.index_of(token);
    assert(f(matches[at[k]]) == Some(token));
    assert(position_of(
        document.positions@,
        start + regex_matches(
            word_pattern(document.symbols.macros[i].label@),
            text_from(document.content@, start as int),
        )[at[k]].0,
    ) == Some(Position { line: token.delta_line, pos: token.delta_start }));
}

/// Every occurrence of every enum is found, whichever file declares it: each match
/// of its label from the start of its scope on whose byte offset has a position has
/// an enum token there.
pub proof fn law_enum_found(document: Document, i: int, start: usize, m: int, position: Position)
    requires
        0 <= i < document.symbols.types.len(),
        document.symbols.types[i].data is Enum,
        scope_start(document.symbols.types[i], document.file_path@) == Some(start),
        0 <= m < regex_matches(
            word_pattern(document.symbols.types[i].label@),
            text_from(document.content@, start as int),
        ).len(),
        position_of(
            document.positions@,
            start + regex_matches(
                word_pattern(document.symbols.types[i].label@),
                text_from(document.content@, start as int),
            )[m].0,
        ) == Some(position),
    ensures
        enum_tokens(document).contains(
            SemanticToken {
                delta_line: position.line,
                delta_start: position.pos,
                length: (encode_utf8(document.symbols.types[i].label@).len()
                    % 0x1_0000_0000) as u32,
                token_type: 3,
                token_modifiers_bitset: 0,
            },
        ),
{
    let symbol = document.symbols.types[i];
    lemma_label_found(document, symbol.label@, start as int, 3, m, position);
    let token = SemanticToken {
        delta_line: position.line,
        delta_start: position.pos,
        length: (encode_utf8(symbol.label@).len() % 0x1_0000_0000) as u32,
        token_type: 3,
        token_modifiers_bitset: 0,
    };
    let parts = document.symbols.types@.map_values(symbol_enum_tokens(document));
    let own = label_tokens(document, symbol.label@, start as int, 3);
    let k = own.index_of(token);
    assert(parts[i][k] == token);
    lemma_flatten_has(parts, i, token);
}

/// Every occurrence of every value of every enum is found, whichever file declares
/// the enum: each match of the label of the value from the start of the enum's
/// scope on whose byte offset has a position has an enum member token there.
pub proof fn law_enum_value_found(
    document: Document,
    i: int,
    values: Vec<Declaration>,
    j: int,
    start: usize,
    m: int,
    position: Position,
)
    requires
        0 <= i < document.symbols.types.len(),
        document.symbols.types[i].data == (SymbolData::Enum { values }),
        0 <= j < values.len(),
        scope_start(document.symbols.types[i], document.file_path@) == Some(start),
        0 <= m < regex_matches(
            word_pattern(values[j].label@),
            text_from(document.content@, start as int),
        ).len(),
        position_of(
            document.positions@,
            start + regex_matches(
                word_pattern(values[j].label@),
                text_from(document.content@, start as int),
            )[m].0,
        ) == Some(position),
    ensures
        enum_tokens(document).contains(
            SemanticToken {
                delta_line: position.line,
                delta_start: position.pos,
                length: (encode_utf8(values[j].label@).len() % 0x1_0000_0000) as u32,
                token_type: 2,
                token_modifiers_bitset: 0,
            },
        ),
{
    let symbol = document.symbols.types[i];
    let label = values[j].label@;
    lemma_label_found(document, label, start as int, 2, m, position);
    let token = SemanticToken {
        delta_line: position.line,
        delta_start: position.pos,
        length: (encode_utf8(label).len() % 0x1_0000_0000) as u32,
        token_type: 2,
        token_modifiers_bitset: 0,
    };
    let inner = values@.map_values(value_tokens(document, start as int));
    assert(inner[j] == label_tokens(document, label, start as int, 2));
    lemma_flatten_has(inner, j, token);
    let parts = document.symbols.types@.map_values(symbol_enum_tokens(document));
    let own = label_tokens(document, symbol.label@, start as int, 3);
    let k = inner.flatten().index_of(token);
    assert(parts[i][own.len() + k] == token);
    lemma_flatten_has(parts, i, token);
}

/// The tokens of an enum are all those of its label and then, value by value, all
/// those of its values, from the start of its scope on.
pub proof fn law_enum_listed(
    document: Document,
    symbol: Symbol,
    values: Vec<Declaration>,
    start: usize,
) -> (parts: Seq<Seq<SemanticToken>>)
    requires
        symbol.data == (SymbolData::Enum { values }),
        scope_start(symbol, document.file_path@) == Some(start),
    ensures
        symbol_enum_tokens(document)(symbol) == label_tokens(
            document,
            symbol.label@,
            start as int,
            3,
        ) + parts.flatten(),
        parts.len() == values.len(),
        forall|j: int|
            0 <= j < parts.len() ==> #[trigger] parts[j] == label_tokens(
                document,
                values[j].label@,
                start as int,
                2,
            ),
{
    values@.map_values(value_tokens(document, start as int))
}

/// The enum tokens are those of the types one after the other, and a type that is no
/// enum has none.
pub proof fn law_enums_listed(document: Document) -> (parts: Seq<Seq<SemanticToken>>)
    ensures
        enum_tokens(document) == parts.flatten(),
        parts.len() == document.symbols.types.len(),
        forall|i: int|
            0 <= i < parts.len() ==> #[trigger] parts[i] == symbol_enum_tokens(document)(
                document.symbols.types[i],
            ),
        forall|i: int|
            0 <= i < parts.len() && document.symbols.types[i].data !is Enum ==> (
            #[trigger] parts[i]).len() == 0,
{
    document.symbols.types@.map_values(symbol_enum_tokens(document))
}

/// Every identifier that has a class is found: one whose byte offset has a position
/// at which a word of the syntax tree starts, and whose symbols give it a class, has
/// a token there, as long as the identifier and of that class, whether or not the
/// word is a field.
pub proof fn law_identifier_found(
    document: Document,
    ranges: Seq<(usize, usize)>,
    m: int,
    position: Position,
    token_type: u32,
)
    requires
        0 <= m < ranges.len(),
        ranges[m].0 <= ranges[m].1,
        position_of(document.positions@, ranges[m].0 as int) == Some(position),
        document.words@.contains_key(ranges[m].0),
        document.words@[ranges[m].0].start == position,
        word_class(
            document.words@[ranges[m].0].is_field,
            document.words@[ranges[m].0].symbols@,
            document.file_path@,
            parameter_keys(document.symbols.functions@, document.file_path@),
        ) == Some(token_type),
    ensures
        ranges.filter_map(identifier_token(document)).contains(
            AbsoluteSemanticToken {
                line: position.line,
                start: position.pos,
                length: ((ranges[m].1 - ranges[m].0) % 0x1_0000_0000) as u32,
                token_type,
                token_modifiers_bitset: 0,
            },
        ),
{
    let f = identifier_token(document);
    lemma_filter_map_has(ranges, f, m, f(ranges[m]).unwrap());
}

/// The tokens of identifiers are, in order, one for each that has a class: at the
/// position of its byte offset, at which a word of the syntax tree starts, as long
/// as the identifier, of the class of the word, and without modifiers. `at`
/// tells which identifier each token is of. One has no token only if it has no
/// position, or no word starts there, or the word has no class.
pub proof fn law_identifiers_listed(
    document: Document,
    ranges: Seq<(usize, usize)>,
) -> (at: Seq<int>)
    ensures
        ({
            let tokens = ranges.filter_map(identifier_token(document));
            let keys = parameter_keys(document.symbols.functions@, document.file_path@);
            &&& at.len() == tokens.len()
            &&& forall|k: int|
                0 <= k < at.len() ==> {
                    let (start, end) = ranges[#[trigger] at[k]];
                    let word = document.words@[start];
                    &&& 0 <= at[k] < ranges.len()
                    &&& document.words@.contains_key(start)
                    &&& position_of(document.positions@, start as int) == Some(word.start)
                    &&& tokens[k].line == word.start.line
                    &&& tokens[k].start == word.start.pos
                    &&& tokens[k].length == (end - start) % 0x1_0000_0000
                    &&& word_class(word.is_field, word.symbols@, document.file_path@, keys) == Some(
                        tokens[k].token_type,
                    )
                    &&& tokens[k].token_modifiers_bitset == 0
                }
            &&& forall|j: int, k: int|
                0 <= j < k < at.len() ==> (#[trigger] at[j]) < (#[trigger] at[k])
            &&& forall|m: int|
                0 <= m < ranges.len() && !at.contains(m) ==> {
                    let start = (#[trigger] ranges[m]).0;
                    let word = document.words@[start];
                    ||| !document.words@.contains_key(start)
                    ||| position_of(document.positions@, start as int) != Some(word.start)
                    ||| word_class(
                        word.is_field,
                        word.symbols@,
                        document.file_path@,
                        keys,
                    ) is None
                }
        }),
{
    let tokens = ranges.filter_map(identifier_token(document));
    let f = identifier_token(document);
    let at = lemma_filter_map_listing(ranges, f);
    assert forall|k: int| 0 <= k < at.len() implies f(ranges[#[trigger] at[k]]) == Some(
        tokens[k],
    ) by {}
    at
}

/// All identifiers of the content are classified.
pub proof fn law_identifiers_all(document: Document)
    ensures
        identifier_tokens(document) == regex_matches(
            "\\b[A-Za-z_][A-Za-z0-9_]*\\b"@,
            document.content@,
        ).filter_map(identifier_token(document)),
{
}

} // verus!
