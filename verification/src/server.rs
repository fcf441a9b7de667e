//! The server state, and the tokens of a whole document.

use lru::LruCache;
use regex::Regex;
use vstd::prelude::*;
use vstd::utf8::{
    encode_utf8, encode_utf8_decode_utf8, encode_utf8_valid_utf8, is_char_boundary,
};

use crate::cache::{
    cache_capacity, cache_entries, capacity_of, holds, is_label_cache, lemma_with_labels_concat,
    lemma_with_recent, new_cache, pop_lru, put, try_get_or_insert, with_labels, with_recent,
    MAX_CAPACITY,
};
use crate::declaration::{byte_length, declaration_tokens, low_bits};
use crate::merge::{encoded, is_merge};
use crate::occurrence::{
    enum_labels, enum_tokens, identifier_tokens, label_tokens, lemma_stopped_within, macro_labels,
    macro_tokens, stopped_at,
};
use crate::pattern::{
    compile_pattern, find_ranges, is_short, label_pattern, regex_source, word_pattern,
    PatternError,
};
use crate::symbol::Document;
use crate::token::{as_absolute, AbsoluteSemanticToken, SemanticToken};

verus! {

/// The largest capacity that the cache grows to.
pub const MAX_GROWN_CAPACITY: usize = 2000;

/// The answer to a request for the tokens of a document.
#[derive(Debug)]
pub struct SemanticTokens {
    pub result_id: Option<String>,
    pub data: Vec<SemanticToken>,
}

/// The state of the language server that outlives a request: the expressions
/// that were compiled for labels.
pub struct ServerLanguage {
    regex_cache: LruCache<String, Regex>,
}

/// The tokens of a document before they are merged: of its macros, of its enums,
/// of its declarations and of its identifiers.
pub open spec fn document_tokens(document: Document) -> Seq<AbsoluteSemanticToken> {
    absolute_tokens(macro_tokens(document)) + absolute_tokens(enum_tokens(document))
        + declaration_tokens(document) + identifier_tokens(document)
}

/// Unencoded protocol tokens, read as tokens at absolute places.
pub open spec fn absolute_tokens(tokens: Seq<SemanticToken>) -> Seq<AbsoluteSemanticToken> {
    tokens.map_values(|token: SemanticToken| as_absolute(token))
}

/// The labels that a request looks up, in their order.
pub open spec fn document_labels(document: Document) -> Seq<Seq<char>> {
    macro_labels(document) + enum_labels(document)
}

/// The capacity of the cache after a document of `count` tokens: a cache that is
/// too small for them grows to a fifth more than they are, up to a limit. For
/// more tokens than the limit it stays as it is.
pub open spec fn grown_capacity(capacity: nat, count: nat) -> nat {
    if count <= capacity || count > MAX_GROWN_CAPACITY {
        capacity
    } else if count * 6 / 5 < MAX_GROWN_CAPACITY {
        count * 6 / 5
    } else {
        MAX_GROWN_CAPACITY as nat
    }
}

impl ServerLanguage {
    /// The entries of the cache, from the most recently used one on: each label
    /// with the pattern that its expression was compiled from.
    pub closed spec fn entries(&self) -> Seq<(Seq<char>, Seq<char>)> {
        cache_entries(self.regex_cache)
    }

    /// The number of expressions that the cache can hold.
    pub closed spec fn capacity(&self) -> nat {
        cache_capacity(self.regex_cache)
    }

    /// The cache holds for each of its labels the expression of that label.
    pub open spec fn wf(&self) -> bool {
        is_label_cache(self.entries(), self.capacity())
    }

    /// A server with an empty cache for `capacity` expressions.
    pub fn new(capacity: usize) -> (server: Self)
        requires
            0 < capacity <= MAX_CAPACITY,
        ensures
            server.wf(),
            server.entries() == Seq::<(Seq<char>, Seq<char>)>::empty(),
            server.capacity() == capacity,
    {
        Self { regex_cache: new_cache(capacity) }
    }

    /// The number of expressions that the cache can hold.
    pub fn regex_cache_capacity(&self) -> (capacity: usize)
        ensures
            capacity == self.capacity(),
    {
        capacity_of(&self.regex_cache)
    }

    /// The expression that matches a label as a whole word, out of the cache or
    /// compiled and stored there.
    fn get_regex<'a>(label: &String, regex_cache: &'a mut LruCache<String, Regex>) -> (result:
        Result<&'a Regex, PatternError>)
        requires
            is_label_cache(cache_entries(*old(regex_cache)), cache_capacity(*old(regex_cache))),
        ensures
            is_label_cache(
                cache_entries(*final(regex_cache)),
                cache_capacity(*final(regex_cache)),
            ),
            cache_capacity(*final(regex_cache)) == cache_capacity(*old(regex_cache)),
            match result {
                Ok(regex) => {
                    &&& regex_source(*regex) == word_pattern(label@)
                    &&& cache_entries(*final(regex_cache)) == with_recent(
                        cache_entries(*old(regex_cache)),
                        cache_capacity(*old(regex_cache)),
                        label@,
                        word_pattern(label@),
                    )
                },
                Err(error) => {
                    &&& error.pattern@ == word_pattern(label@)
                    &&& !is_short(label@)
                    &&& !holds(cache_entries(*old(regex_cache)), label@)
                    &&& cache_entries(*final(regex_cache)) == cache_entries(*old(regex_cache))
                },
            },
    {
        proof {
            lemma_with_recent(
                cache_entries(*old(regex_cache)),
                cache_capacity(*old(regex_cache)),
                label@,
            );
        }
        let make = || -> (result: Result<Regex, PatternError>)
            ensures
                match result {
                    Ok(regex) => regex_source(regex) == word_pattern(label@),
                    Err(error) => error.pattern@ == word_pattern(label@) && !is_short(label@),
                },
            { compile_pattern(label_pattern(label.as_str())) };
        try_get_or_insert(regex_cache, label.clone(), make)
    }

    /// The tokens, not encoded yet, of the places from `start` on at which the
    /// content of a document has a label as a whole word.
    pub fn find_label_tokens(
        &mut self,
        document: &Document,
        label: &String,
        start: usize,
        token_type: u32,
    ) -> (result: Result<Vec<SemanticToken>, PatternError>)
        requires
            old(self).wf(),
            is_char_boundary(encode_utf8(document.content@), start as int),
        ensures
            final(self).wf(),
            final(self).capacity() == old(self).capacity(),
            match result {
                Ok(tokens) => {
                    &&& tokens@ == label_tokens(*document, label@, start as int, token_type)
                    &&& final(self).entries() == with_recent(
                        old(self).entries(),
                        old(self).capacity(),
                        label@,
                        word_pattern(label@),
                    )
                },
                Err(error) => {
                    &&& error.pattern@ == word_pattern(label@)
                    &&& !is_short(label@)
                    &&& !holds(old(self).entries(), label@)
                    &&& final(self).entries() == old(self).entries()
                },
            },
    {
        let content = document.content.as_str();
        let (_, text) = content.split_at(start);
        proof {
            encode_utf8_valid_utf8(content@);
            encode_utf8_decode_utf8(text@);
        }
        // The content is in memory, so every offset into it fits.
        let byte_count: usize = content.as_bytes().len();
        assert(start + encode_utf8(text@).len() == byte_count);
        match Self::get_regex(label, &mut self.regex_cache) {
            Ok(regex) => {
                let ranges = find_ranges(regex, text);
                Ok(
                    Self::occurrence_tokens(
                        document,
                        &ranges,
                        start,
                        low_bits(byte_length(label)),
                        token_type,
                    ),
                )
            },
            Err(error) => Err(error),
        }
    }

    /// Makes the cache large enough for a document of `count` tokens, within the
    /// limit. The entries and their order stay.
    pub fn grow_cache(&mut self, count: usize)
        requires
            old(self).wf(),
        ensures
            final(self).wf(),
            final(self).entries() == old(self).entries(),
            final(self).capacity() == grown_capacity(old(self).capacity(), count as nat),
    {
        if count <= capacity_of(&self.regex_cache) || count > MAX_GROWN_CAPACITY {
            return;
        }
        let scaled: usize = count * 6 / 5;
        let new_capacity: usize = if scaled < MAX_GROWN_CAPACITY {
            scaled
        } else {
            MAX_GROWN_CAPACITY
        };
        let ghost entries = self.entries();
        let mut old_cache = new_cache(new_capacity);
        std::mem::swap(&mut old_cache, &mut self.regex_cache);
        assert(entries.take(entries.len() as int) =~= entries);
        assert(entries.skip(entries.len() as int) =~= Seq::empty());
        loop
            invariant
                entries.len() < new_capacity,
                cache_capacity(self.regex_cache) == new_capacity,
                cache_entries(old_cache).len() <= entries.len(),
                cache_entries(old_cache) == entries.take(cache_entries(old_cache).len() as int),
                cache_entries(self.regex_cache) == entries.skip(
                    cache_entries(old_cache).len() as int,
                ),
                forall|i: int, j: int|
                    0 <= i < j < entries.len() ==> (#[trigger] entries[i]).0 != (
                    #[trigger] entries[j]).0,
            ensures
                cache_entries(old_cache).len() == 0,
            decreases cache_entries(old_cache).len(),
        {
            let (label, regex) = match pop_lru(&mut old_cache) {
                Some(entry) => entry,
                None => {
                    break;
                },
            };
            let ghost n = cache_entries(old_cache).len() as int;
            assert(cache_entries(old_cache) =~= entries.take(n));
            assert(!holds(cache_entries(self.regex_cache), label@)) by {
                assert(entries[n].0 == label@);
                assert forall|i: int|
                    0 <= i < cache_entries(self.regex_cache).len() implies (
                #[trigger] cache_entries(self.regex_cache)[i]).0 != label@ by {
                    assert(cache_entries(self.regex_cache)[i] == entries[n + 1 + i]);
                }
            }
            put(&mut self.regex_cache, label, regex);
            assert(cache_entries(self.regex_cache) =~= entries.skip(n));
        }
        assert(entries.skip(0) =~= entries);
    }

    /// Joins the tokens of the four sources and keeps one token per range.
    pub fn join_tokens(
        macros: Vec<SemanticToken>,
        enums: Vec<SemanticToken>,
        declarations: Vec<AbsoluteSemanticToken>,
        identifiers: Vec<AbsoluteSemanticToken>,
    ) -> (merged: Vec<AbsoluteSemanticToken>)
        ensures
            is_merge(
                absolute_tokens(macros@) + absolute_tokens(enums@) + declarations@ + identifiers@,
                merged@,
            ),
    {
        let mut tokens = Self::normalize_tokens(macros);
        let mut enums = Self::normalize_tokens(enums);
        let mut declarations = declarations;
        let mut identifiers = identifiers;
        tokens.append(&mut enums);
        tokens.append(&mut declarations);
        tokens.append(&mut identifiers);
        Self::merge_tokens(tokens)
    }

    /// The tokens of a document, encoded. The tokens do not depend on what the
    /// cache holds. The cache looks the labels of the document up, and grows where
    /// it is too small for the tokens. A pattern that does not compile ends the
    /// request.
    pub fn recolt_semantic_tokens(&mut self, document: &Document) -> (result: Result<
        SemanticTokens,
        PatternError,
    >)
        requires
            old(self).wf(),
            document.valid(),
        ensures
            final(self).wf(),
            match result {
                Ok(tokens) => {
                    &&& tokens.result_id is None
                    &&& exists|merged: Seq<AbsoluteSemanticToken>|
                        #[trigger] is_merge(document_tokens(*document), merged) && tokens.data@
                            == encoded(merged)
                    &&& final(self).entries() == with_labels(
                        old(self).entries(),
                        old(self).capacity(),
                        document_labels(*document),
                    )
                    &&& final(self).capacity() == grown_capacity(
                        old(self).capacity(),
                        tokens.data.len() as nat,
                    )
                },
                Err(error) => {
                    &&& final(self).capacity() == old(self).capacity()
                    &&& stopped_at(
                        old(self).entries(),
                        old(self).capacity(),
                        document_labels(*document),
                        final(self).entries(),
                        error,
                    )
                },
            },
    {
        let ghost capacity = self.capacity();
        let macros = match self.find_macros(document) {
            Ok(tokens) => tokens,
            Err(error) => {
                proof {
                    let labels = macro_labels(*document);
                    lemma_stopped_within(
                        old(self).entries(),
                        capacity,
                        Seq::empty(),
                        labels,
                        enum_labels(*document),
                        self.entries(),
                        error,
                    );
                    assert(Seq::empty() + labels =~= labels);
                }
                return Err(error);
            },
        };
        let enums = match self.find_enum(document) {
            Ok(tokens) => tokens,
            Err(error) => {
                proof {
                    lemma_stopped_within(
                        old(self).entries(),
                        capacity,
                        macro_labels(*document),
                        enum_labels(*document),
                        Seq::empty(),
                        self.entries(),
                        error,
                    );
                    let labels = document_labels(*document);
                    assert(labels + Seq::empty() =~= labels);
                }
                return Err(error);
            },
        };
        proof {
            lemma_with_labels_concat(
                old(self).entries(),
                capacity,
                macro_labels(*document),
                enum_labels(*document),
            );
        }
        let declarations = Self::find_symbol_declaration_tokens(document);
        let identifiers = Self::find_identifier_symbol_tokens(document);
        let merged = Self::join_tokens(macros, enums, declarations, identifiers);
        self.grow_cache(merged.len());
        assert(is_merge(document_tokens(*document), merged@));
        let data = Self::encode_tokens(merged);
        Ok(SemanticTokens { result_id: None, data })
    }
}

} // verus!
