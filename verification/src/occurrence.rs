//! Tokens of the words in the content of a document.

use vstd::prelude::*;
use vstd::utf8::{encode_utf8, is_char_boundary};

use crate::cache::{holds, lemma_with_labels_concat, with_labels};
use crate::declaration::{label_length, length_bits, low_bits, parameter_keys, word_class};
use crate::pattern::{
    compile_pattern, find_ranges, is_short, regex_matches, text_from, word_pattern, PatternError,
    IDENTIFIER_PATTERN,
};
use crate::server::ServerLanguage;
use crate::symbol::{
    has_scope, position_of, scope_start, Declaration, Document, Symbol, SymbolData,
};
use crate::token::{
    plain_token, AbsoluteSemanticToken, Position, SemanticToken, TOKEN_TYPE_ENUM,
    TOKEN_TYPE_ENUM_MEMBER, TOKEN_TYPE_MACRO,
};

verus! {

/// The token, not encoded yet, of a match that was found in the text from
/// `start` on. A match without a position has none.
pub open spec fn found_token(
    positions: Seq<Option<Position>>,
    start: int,
    length: u32,
    token_type: u32,
) -> spec_fn((usize, usize)) -> Option<SemanticToken> {
    |range: (usize, usize)|
        match position_of(positions, start + range.0) {
            Some(position) => Some(
                SemanticToken {
                    delta_line: position.line,
                    delta_start: position.pos,
                    length,
                    token_type,
                    token_modifiers_bitset: 0,
                },
            ),
            None => None,
        }
}

/// The tokens of a label: one for each place from `start` on at which the
/// content has it as a whole word.
pub open spec fn label_tokens(
    document: Document,
    label: Seq<char>,
    start: int,
    token_type: u32,
) -> Seq<SemanticToken> {
    regex_matches(word_pattern(label), text_from(document.content@, start)).filter_map(
        found_token(document.positions@, start, label_length(label), token_type),
    )
}

/// The tokens of a macro, in its scope.
pub open spec fn symbol_macro_tokens(document: Document) -> spec_fn(Symbol) -> Seq<SemanticToken> {
    |symbol: Symbol|
        label_tokens(
            document,
            symbol.label@,
            scope_start(symbol, document.file_path@).unwrap() as int,
            TOKEN_TYPE_MACRO,
        )
}

/// The tokens of all macros.
pub open spec fn macro_tokens(document: Document) -> Seq<SemanticToken> {
    document.symbols.macros@.flat_map(symbol_macro_tokens(document))
}

/// The tokens of an enum value, in the scope of its enum.
pub open spec fn value_tokens(document: Document, start: int) -> spec_fn(Declaration) -> Seq<
    SemanticToken,
> {
    |value: Declaration| label_tokens(document, value.label@, start, TOKEN_TYPE_ENUM_MEMBER)
}

/// The tokens of an enum and of its values, in its scope. Other types have none.
pub open spec fn symbol_enum_tokens(document: Document) -> spec_fn(Symbol) -> Seq<SemanticToken> {
    |symbol: Symbol|
        match symbol.data {
            SymbolData::Enum { values } => {
                let start = scope_start(symbol, document.file_path@).unwrap() as int;
                label_tokens(document, symbol.label@, start, TOKEN_TYPE_ENUM) + values@.flat_map(
                    value_tokens(document, start),
                )
            },
            _ => Seq::empty(),
        }
}

/// The tokens of all enums and of their values.
pub open spec fn enum_tokens(document: Document) -> Seq<SemanticToken> {
    document.symbols.types@.flat_map(symbol_enum_tokens(document))
}

/// The labels of all macros, in the order in which they are looked up.
pub open spec fn macro_labels(document: Document) -> Seq<Seq<char>> {
    document.symbols.macros@.map_values(|symbol: Symbol| symbol.label@)
}

/// The labels of the values of an enum.
pub open spec fn value_labels(values: Seq<Declaration>) -> Seq<Seq<char>> {
    values.map_values(|value: Declaration| value.label@)
}

/// The label of an enum and those of its values.
pub open spec fn symbol_enum_labels() -> spec_fn(Symbol) -> Seq<Seq<char>> {
    |symbol: Symbol|
        match symbol.data {
            SymbolData::Enum { values } => seq![symbol.label@] + value_labels(values@),
            _ => Seq::empty(),
        }
}

/// The labels of all enums and of their values, in the order in which they are
/// looked up.
pub open spec fn enum_labels(document: Document) -> Seq<Seq<char>> {
    document.symbols.types@.flat_map(symbol_enum_labels())
}

/// Looking the labels up came to an end at one that the cache did not hold, that
/// is not short, and whose pattern did not compile. Those before it were looked
/// up.
pub open spec fn stopped_at(
    before: Seq<(Seq<char>, Seq<char>)>,
    capacity: nat,
    labels: Seq<Seq<char>>,
    after: Seq<(Seq<char>, Seq<char>)>,
    error: PatternError,
) -> bool {
    exists|n: int|
        0 <= n < labels.len() && after == with_labels(before, capacity, #[trigger] labels.take(n))
            && !holds(after, labels[n]) && !is_short(labels[n]) && error.pattern@ == word_pattern(
            labels[n],
        )
}

/// The token of an identifier. It has one where the syntax tree has a word that
/// starts at its position and that has a class.
pub open spec fn identifier_token(document: Document) -> spec_fn((usize, usize)) -> Option<
    AbsoluteSemanticToken,
> {
    let file = document.file_path@;
    let keys = parameter_keys(document.symbols.functions@, file);
    |range: (usize, usize)|
        match position_of(document.positions@, range.0 as int) {
            Some(position) => if document.words@.contains_key(range.0)
                && document.words@[range.0].start == position {
                let word = document.words@[range.0];
                match word_class(word.is_field, word.symbols@, file, keys) {
                    Some(token_type) => Some(
                        plain_token(
                            position.line,
                            position.pos,
                            length_bits(range.1 - range.0),
                            token_type,
                        ),
                    ),
                    None => None,
                }
            } else {
                None
            },
            None => None,
        }
}

/// The tokens of all identifiers of the content.
pub open spec fn identifier_tokens(document: Document) -> Seq<AbsoluteSemanticToken> {
    regex_matches(IDENTIFIER_PATTERN@, document.content@).filter_map(identifier_token(document))
}

/// What an initial part of a sequence maps to is an initial part of what the
/// sequence maps to.
proof fn lemma_flat_map_prefix<A, B>(s: Seq<A>, f: spec_fn(A) -> Seq<B>, i: int, n: int)
    requires
        0 <= i <= n <= s.len(),
    ensures
        s.take(i).flat_map(f).len() <= s.take(n).flat_map(f).len(),
        s.take(i).flat_map(f) == s.take(n).flat_map(f).take(s.take(i).flat_map(f).len() as int),
    decreases n - i,
{
    let shorter = s.take(i).flat_map(f);
    if i == n {
        assert(shorter.take(shorter.len() as int) =~= shorter);
    } else {
        lemma_flat_map_prefix(s, f, i, n - 1);
        s.lemma_flat_map_take_append(f, n - 1);
        let middle = s.take(n - 1).flat_map(f);
        assert((middle + f(s[n - 1])).take(shorter.len() as int) =~= middle.take(
            shorter.len() as int,
        ));
    }
}

/// The labels of the enums before one, and its own, are followed by others to make
/// all enum labels.
proof fn lemma_enum_labels_split(document: Document, i: int) -> (rest: Seq<Seq<char>>)
    requires
        0 <= i < document.symbols.types.len(),
    ensures
        enum_labels(document) == document.symbols.types@.take(i).flat_map(symbol_enum_labels())
            + symbol_enum_labels()(document.symbols.types[i]) + rest,
{
    let types = document.symbols.types@;
    let f = symbol_enum_labels();
    types.lemma_flat_map_take_append(f, i);
    lemma_flat_map_prefix(types, f, i + 1, types.len() as int);
    assert(types.take(types.len() as int) =~= types);
    let labels = enum_labels(document);
    let part = types.take(i).flat_map(f) + f(types[i]);
    let rest = labels.skip(part.len() as int);
    assert(labels =~= labels.take(part.len() as int) + rest);
    rest
}

/// A search that stops in the middle one of three runs of labels stops in all of
/// them together.
pub(crate) proof fn lemma_stopped_within(
    before: Seq<(Seq<char>, Seq<char>)>,
    capacity: nat,
    first: Seq<Seq<char>>,
    second: Seq<Seq<char>>,
    third: Seq<Seq<char>>,
    after: Seq<(Seq<char>, Seq<char>)>,
    error: PatternError,
)
    requires
        stopped_at(with_labels(before, capacity, first), capacity, second, after, error),
    ensures
        stopped_at(before, capacity, first + second + third, after, error),
{
    let labels = first + second + third;
    let middle = with_labels(before, capacity, first);
    let n = choose|n: int|
        0 <= n < second.len() && after == with_labels(middle, capacity, #[trigger] second.take(n))
            && !holds(after, second[n]) && !is_short(second[n]) && error.pattern@ == word_pattern(
            second[n],
        );
    lemma_with_labels_concat(before, capacity, first, second.take(n));
    assert(labels.take(first.len() + n) =~= first + second.take(n));
    assert(labels[first.len() + n] == second[n]);
}

impl ServerLanguage {
    /// The tokens, not encoded yet, of matches that were found in the text from
    /// `start` on.
    pub fn occurrence_tokens(
        document: &Document,
        ranges: &Vec<(usize, usize)>,
        start: usize,
        length: u32,
        token_type: u32,
    ) -> (tokens: Vec<SemanticToken>)
        requires
            forall|i: int| 0 <= i < ranges.len() ==> start + (#[trigger] ranges[i]).0 <= usize::MAX,
        ensures
            tokens@ == ranges@.filter_map(
                found_token(document.positions@, start as int, length, token_type),
            ),
    {
        let ghost token_of = found_token(document.positions@, start as int, length, token_type);
        let mut tokens: Vec<SemanticToken> = Vec::new();
        for i in 0..ranges.len()
            invariant
                token_of == found_token(document.positions@, start as int, length, token_type),
                forall|k: int|
                    0 <= k < ranges.len() ==> start + (#[trigger] ranges[k]).0 <= usize::MAX,
                tokens@ == ranges@.take(i as int).filter_map(token_of),
        {
            proof {
                ranges@.lemma_filter_map_take_succ(token_of, i as int);
            }
            let byte_offset: usize = start + ranges[i].0;
            if let Some(position) = document.position(byte_offset) {
                tokens.push(
                    SemanticToken {
                        delta_line: position.line,
                        delta_start: position.pos,
                        length,
                        token_type,
                        token_modifiers_bitset: 0,
                    },
                );
            }
        }
        assert(ranges@.take(ranges.len() as int) =~= ranges@);
        tokens
    }

    /// The byte offsets of the start and of the end of each identifier.
    pub fn identifier_ranges(content: &String) -> (ranges: Vec<(usize, usize)>)
        ensures
            ranges@ == regex_matches(IDENTIFIER_PATTERN@, content@),
            forall|i: int|
                0 <= i < ranges.len() ==> (#[trigger] ranges[i]).0 <= ranges[i].1 <= encode_utf8(
                    content@,
                ).len(),
            forall|i: int, j: int|
                0 <= i < j < ranges.len() ==> (#[trigger] ranges[i]).1 <= (
                #[trigger] ranges[j]).0,
    {
        let regex = compile_pattern(IDENTIFIER_PATTERN.to_owned()).unwrap();
        find_ranges(&regex, content.as_str())
    }

    /// The tokens of identifiers, given where they start and end.
    pub fn classify_identifiers(document: &Document, ranges: &Vec<(usize, usize)>) -> (tokens: Vec<
        AbsoluteSemanticToken,
    >)
        requires
            forall|i: int| 0 <= i < ranges.len() ==> (#[trigger] ranges[i]).0 <= ranges[i].1,
        ensures
            tokens@ == ranges@.filter_map(identifier_token(*document)),
    {
        broadcast use vstd::std_specs::hash::group_hash_axioms;

        let file_path = &document.file_path;
        let parameter_keys = Self::collect_parameter_declaration_keys(
            &document.symbols.functions,
            file_path,
        );
        let mut tokens: Vec<AbsoluteSemanticToken> = Vec::new();
        for i in 0..ranges.len()
            invariant
                file_path == document.file_path,
                parameter_keys@ == crate::declaration::parameter_keys(
                    document.symbols.functions@,
                    file_path@,
                ),
                forall|k: int| 0 <= k < ranges.len() ==> (#[trigger] ranges[k]).0 <= ranges[k].1,
                tokens@ == ranges@.take(i as int).filter_map(identifier_token(*document)),
        {
            proof {
                ranges@.lemma_filter_map_take_succ(identifier_token(*document), i as int);
            }
            let (start, end) = ranges[i];
            if let Some(position) = document.position(start) {
                if let Some(word) = document.words.get(&start) {
                    if word.start == position {
                        let class = Self::classify_word_symbol(
                            word.is_field,
                            &word.symbols,
                            file_path,
                            &parameter_keys,
                        );
                        if let Some(token_type) = class {
                            tokens.push(
                                AbsoluteSemanticToken::new(
                                    position.line,
                                    position.pos,
                                    low_bits(end - start),
                                    token_type,
                                ),
                            );
                        }
                    }
                }
            }
        }
        assert(ranges@.take(ranges.len() as int) =~= ranges@);
        tokens
    }

    /// The tokens of all identifiers of the content.
    pub fn find_identifier_symbol_tokens(document: &Document) -> (tokens: Vec<
        AbsoluteSemanticToken,
    >)
        ensures
            tokens@ == identifier_tokens(*document),
    {
        let ranges = Self::identifier_ranges(&document.content);
        Self::classify_identifiers(document, &ranges)
    }

    /// The tokens, not encoded yet, of all macros of a document, each searched
    /// for in its scope.
    pub fn find_macros(&mut self, document: &Document) -> (result: Result<
        Vec<SemanticToken>,
        PatternError,
    >)
        requires
            old(self).wf(),
            document.valid_macros(),
        ensures
            final(self).wf(),
            final(self).capacity() == old(self).capacity(),
            match result {
                Ok(tokens) => {
                    &&& tokens@ == macro_tokens(*document)
                    &&& final(self).entries() == with_labels(
                        old(self).entries(),
                        old(self).capacity(),
                        macro_labels(*document),
                    )
                },
                Err(error) => stopped_at(
                    old(self).entries(),
                    old(self).capacity(),
                    macro_labels(*document),
                    final(self).entries(),
                    error,
                ),
            },
    {
        let macros = &document.symbols.macros;
        let ghost labels = macro_labels(*document);
        let mut tokens: Vec<SemanticToken> = Vec::new();
        assert(macros@.take(0).flat_map(symbol_macro_tokens(*document)) =~= Seq::empty());
        for i in 0..macros.len()
            invariant
                macros == document.symbols.macros,
                labels == macro_labels(*document),
                document.valid_macros(),
                self.wf(),
                self.capacity() == old(self).capacity(),
                self.entries() == with_labels(
                    old(self).entries(),
                    old(self).capacity(),
                    labels.take(i as int),
                ),
                tokens@ == macros@.take(i as int).flat_map(symbol_macro_tokens(*document)),
        {
            let symbol = &macros[i];
            assert(has_scope(
                document.symbols.macros[i as int],
                document.file_path@,
                document.content@,
            ));
            assert(labels.take(i + 1).drop_last() =~= labels.take(i as int));
            proof {
                macros@.lemma_flat_map_take_append(symbol_macro_tokens(*document), i as int);
            }
            let start: usize = symbol.scope_start(&document.file_path).unwrap();
            match self.find_label_tokens(document, &symbol.label, start, TOKEN_TYPE_MACRO) {
                Ok(found) => {
                    let mut found = found;
                    tokens.append(&mut found);
                },
                Err(error) => {
                    assert(labels[i as int] == symbol.label@);
                    return Err(error);
                },
            }
        }
        assert(macros@.take(macros.len() as int) =~= macros@);
        assert(labels.take(macros.len() as int) =~= labels);
        Ok(tokens)
    }

    /// The tokens, not encoded yet, of the values of an enum whose scope starts at
    /// `start`.
    fn find_value_tokens(
        &mut self,
        document: &Document,
        values: &Vec<Declaration>,
        start: usize,
    ) -> (result: Result<Vec<SemanticToken>, PatternError>)
        requires
            old(self).wf(),
            is_char_boundary(encode_utf8(document.content@), start as int),
        ensures
            final(self).wf(),
            final(self).capacity() == old(self).capacity(),
            match result {
                Ok(tokens) => {
                    &&& tokens@ == values@.flat_map(value_tokens(*document, start as int))
                    &&& final(self).entries() == with_labels(
                        old(self).entries(),
                        old(self).capacity(),
                        value_labels(values@),
                    )
                },
                Err(error) => stopped_at(
                    old(self).entries(),
                    old(self).capacity(),
                    value_labels(values@),
                    final(self).entries(),
                    error,
                ),
            },
    {
        let ghost labels = value_labels(values@);
        let ghost of_value = value_tokens(*document, start as int);
        let mut tokens: Vec<SemanticToken> = Vec::new();
        assert(values@.take(0).flat_map(of_value) =~= Seq::empty());
        for i in 0..values.len()
            invariant
                labels == value_labels(values@),
                of_value == value_tokens(*document, start as int),
                is_char_boundary(encode_utf8(document.content@), start as int),
                self.wf(),
                self.capacity() == old(self).capacity(),
                self.entries() == with_labels(
                    old(self).entries(),
                    old(self).capacity(),
                    labels.take(i as int),
                ),
                tokens@ == values@.take(i as int).flat_map(of_value),
        {
            let value = &values[i];
            assert(labels.take(i + 1).drop_last() =~= labels.take(i as int));
            proof {
                values@.lemma_flat_map_take_append(of_value, i as int);
            }
            match self.find_label_tokens(document, &value.label, start, TOKEN_TYPE_ENUM_MEMBER) {
                Ok(found) => {
                    let mut found = found;
                    tokens.append(&mut found);
                },
                Err(error) => {
                    assert(labels[i as int] == value.label@);
                    return Err(error);
                },
            }
        }
        assert(values@.take(values.len() as int) =~= values@);
        assert(labels.take(values.len() as int) =~= labels);
        Ok(tokens)
    }

    /// The tokens, not encoded yet, of an enum and of its values, searched for in
    /// its scope.
    fn find_symbol_enum_tokens(
        &mut self,
        document: &Document,
        symbol: &Symbol,
        values: &Vec<Declaration>,
    ) -> (result: Result<Vec<SemanticToken>, PatternError>)
        requires
            old(self).wf(),
            symbol.data == (SymbolData::Enum { values: *values }),
            has_scope(*symbol, document.file_path@, document.content@),
        ensures
            final(self).wf(),
            final(self).capacity() == old(self).capacity(),
            match result {
                Ok(tokens) => {
                    &&& tokens@ == symbol_enum_tokens(*document)(*symbol)
                    &&& final(self).entries() == with_labels(
                        old(self).entries(),
                        old(self).capacity(),
                        symbol_enum_labels()(*symbol),
                    )
                },
                Err(error) => stopped_at(
                    old(self).entries(),
                    old(self).capacity(),
                    symbol_enum_labels()(*symbol),
                    final(self).entries(),
                    error,
                ),
            },
    {
        let ghost own = seq![symbol.label@];
        let ghost labels = symbol_enum_labels()(*symbol);
        assert(own.drop_last() =~= Seq::empty());
        let start: usize = symbol.scope_start(&document.file_path).unwrap();
        let mut tokens = match self.find_label_tokens(
            document,
            &symbol.label,
            start,
            TOKEN_TYPE_ENUM,
        ) {
            Ok(found) => found,
            Err(error) => {
                assert(labels.take(0) =~= Seq::empty());
                assert(labels[0] == symbol.label@);
                return Err(error);
            },
        };
        assert(self.entries() == with_labels(old(self).entries(), old(self).capacity(), own)) by {
            reveal_with_fuel(with_labels, 2);
        }
        proof {
            lemma_with_labels_concat(
                old(self).entries(),
                old(self).capacity(),
                own,
                value_labels(values@),
            );
        }
        match self.find_value_tokens(document, values, start) {
            Ok(found) => {
                let mut found = found;
                tokens.append(&mut found);
                Ok(tokens)
            },
            Err(error) => {
                proof {
                    lemma_stopped_within(
                        old(self).entries(),
                        old(self).capacity(),
                        own,
                        value_labels(values@),
                        Seq::empty(),
                        self.entries(),
                        error,
                    );
                    assert(own + value_labels(values@) + Seq::empty() =~= labels);
                }
                Err(error)
            },
        }
    }

    /// The tokens, not encoded yet, of all enums of a document and of their
    /// values, each searched for in the scope of its enum.
    pub fn find_enum(&mut self, document: &Document) -> (result: Result<
        Vec<SemanticToken>,
        PatternError,
    >)
        requires
            old(self).wf(),
            document.valid_enums(),
        ensures
            final(self).wf(),
            final(self).capacity() == old(self).capacity(),
            match result {
                Ok(tokens) => {
                    &&& tokens@ == enum_tokens(*document)
                    &&& final(self).entries() == with_labels(
                        old(self).entries(),
                        old(self).capacity(),
                        enum_labels(*document),
                    )
                },
                Err(error) => stopped_at(
                    old(self).entries(),
                    old(self).capacity(),
                    enum_labels(*document),
                    final(self).entries(),
                    error,
                ),
            },
    {
        let types = &document.symbols.types;
        let ghost labels = enum_labels(*document);
        let mut tokens: Vec<SemanticToken> = Vec::new();
        assert(types@.take(0).flat_map(symbol_enum_tokens(*document)) =~= Seq::empty());
        assert(types@.take(0).flat_map(symbol_enum_labels()) =~= Seq::empty());
        for i in 0..types.len()
            invariant
                types == document.symbols.types,
                labels == enum_labels(*document),
                document.valid_enums(),
                self.wf(),
                self.capacity() == old(self).capacity(),
                self.entries() == with_labels(
                    old(self).entries(),
                    old(self).capacity(),
                    types@.take(i as int).flat_map(symbol_enum_labels()),
                ),
                tokens@ == types@.take(i as int).flat_map(symbol_enum_tokens(*document)),
        {
            let symbol = &types[i];
            let ghost before = types@.take(i as int).flat_map(symbol_enum_labels());
            let ghost own = symbol_enum_labels()(*symbol);
            proof {
                types@.lemma_flat_map_take_append(symbol_enum_tokens(*document), i as int);
                types@.lemma_flat_map_take_append(symbol_enum_labels(), i as int);
            }
            if let SymbolData::Enum { values } = &symbol.data {
                assert(has_scope(
                    document.symbols.types[i as int],
                    document.file_path@,
                    document.content@,
                ));
                match self.find_symbol_enum_tokens(document, symbol, values) {
                    Ok(found) => {
                        let mut found = found;
                        tokens.append(&mut found);
                        proof {
                            lemma_with_labels_concat(
                                old(self).entries(),
                                old(self).capacity(),
                                before,
                                own,
                            );
                        }
                    },
                    Err(error) => {
                        proof {
                            let rest = lemma_enum_labels_split(*document, i as int);
                            lemma_stopped_within(
                                old(self).entries(),
                                old(self).capacity(),
                                before,
                                own,
                                rest,
                                self.entries(),
                                error,
                            );
                        }
                        return Err(error);
                    },
                }
            } else {
                assert(before + own =~= before);
            }
        }
        assert(types@.take(types.len() as int) =~= types@);
        Ok(tokens)
    }
}

} // verus!
