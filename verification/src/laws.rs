//! What holds of the library as a whole.

use vstd::prelude::*;

use crate::cache::{
    holds, index_of, is_label_cache, lemma_with_labels, lemma_with_recent, with_labels, with_recent,
};
use crate::declaration::{
    declaration_tokens, function_token, inner_token, inner_tokens, label_length,
    parameter_keys, symbol_class, type_tokens, variable_token, word_class,
};
use crate::merge::{
    comes_before, covers, encoded, is_merge, is_survivor, precedence, relative_token, same_range,
    starts_ordered, strictly_ordered, survives,
};
use crate::occurrence::{
    enum_tokens, found_token, identifier_token, identifier_tokens, label_tokens, macro_tokens,
    symbol_enum_tokens, symbol_macro_tokens, value_tokens,
};
use crate::pattern::{regex_matches, text_from, word_pattern, IDENTIFIER_PATTERN};
use crate::server::{absolute_tokens, document_tokens, grown_capacity, MAX_GROWN_CAPACITY};
use crate::symbol::{position_of, range_in, scope_start, Document, Symbol, SymbolData};
use crate::token::{
    as_absolute, is_plain, AbsoluteSemanticToken, Position, Range, SemanticToken, TOKEN_TYPE_ENUM,
    TOKEN_TYPE_ENUM_MEMBER, TOKEN_TYPE_FUNCTION, TOKEN_TYPE_MACRO, TOKEN_TYPE_PROPERTY,
};

pub mod answer;
pub mod declarations;
pub mod listing;
pub mod occurrences;
pub mod values;

verus! {

/// Two of the eight token types never have the same precedence, and each has a
/// higher one than a type that is not among them.
pub proof fn law_precedence_distinct(a: u32, b: u32)
    requires
        a <= TOKEN_TYPE_PROPERTY,
        a != b,
    ensures
        precedence(a) != precedence(b),
        b > TOKEN_TYPE_PROPERTY ==> precedence(b) < precedence(a),
{
}

/// Two tokens cannot each come before the other.
proof fn lemma_order_asymmetric(a: AbsoluteSemanticToken, b: AbsoluteSemanticToken)
    requires
        comes_before(a, b),
    ensures
        !comes_before(b, a),
        !same_range(a, b),
        a != b,
{
}

/// Two ordered lists with the same tokens are the same list.
proof fn lemma_ordered_unique(a: Seq<AbsoluteSemanticToken>, b: Seq<AbsoluteSemanticToken>)
    requires
        strictly_ordered(a),
        strictly_ordered(b),
        forall|k: int| 0 <= k < a.len() ==> b.contains(#[trigger] a[k]),
        forall|k: int| 0 <= k < b.len() ==> a.contains(#[trigger] b[k]),
    ensures
        a == b,
    decreases a.len(),
{
    if a.len() == 0 {
        if b.len() > 0 {
            assert(a.contains(b[0]));
        }
        assert(a =~= b);
    } else {
        assert(b.contains(a[a.len() - 1]));
        let i = choose|i: int| 0 <= i < b.len() && b[i] == a.last();
        assert(a.contains(b[b.len() - 1]));
        let j = choose|j: int| 0 <= j < a.len() && a[j] == b.last();
        assert(a.last() == b.last()) by {
            if i != b.len() - 1 && j != a.len() - 1 {
                assert(comes_before(b[i], b[b.len() - 1]));
                assert(comes_before(a[j], a[a.len() - 1]));
                lemma_order_asymmetric(a.last(), b.last());
            }
        }
        let a1 = a.drop_last();
        let b1 = b.drop_last();
        assert forall|k: int| 0 <= k < a1.len() implies b1.contains(#[trigger] a1[k]) by {
            assert(b.contains(a[k]));
            let m = choose|m: int| 0 <= m < b.len() && b[m] == a[k];
            assert(comes_before(a[k], a[a.len() - 1]));
            lemma_order_asymmetric(a[k], a.last());
            assert(m < b1.len());
            assert(b1[m] == a1[k]);
        }
        assert forall|k: int| 0 <= k < b1.len() implies a1.contains(#[trigger] b1[k]) by {
            assert(a.contains(b[k]));
            let m = choose|m: int| 0 <= m < a.len() && a[m] == b[k];
            assert(comes_before(b[k], b[b.len() - 1]));
            lemma_order_asymmetric(b[k], b.last());
            assert(m < a1.len());
            assert(a1[m] == b1[k]);
        }
        lemma_ordered_unique(a1, b1);
        assert(a =~= a1.push(a.last()));
        assert(b =~= b1.push(b.last()));
    }
}

/// On each range one index survives.
proof fn lemma_survivor_unique(tokens: Seq<AbsoluteSemanticToken>, i: int, j: int)
    requires
        survives(tokens, i),
        survives(tokens, j),
        same_range(tokens[i], tokens[j]),
    ensures
        i == j,
{
    let at_i = tokens[i];
    let at_j = tokens[j];
    assert(same_range(at_j, at_i));
}

/// The tokens that one merge keeps, another merge of the same tokens keeps.
proof fn lemma_merge_contains(
    tokens: Seq<AbsoluteSemanticToken>,
    a: Seq<AbsoluteSemanticToken>,
    b: Seq<AbsoluteSemanticToken>,
    k: int,
)
    requires
        is_merge(tokens, a),
        is_merge(tokens, b),
        0 <= k < a.len(),
    ensures
        b.contains(a[k]),
{
    let i = lemma_survivor_index(tokens, a, k);
    let m = lemma_cover_index(tokens, b, i);
    let j = lemma_survivor_index(tokens, b, m);
    lemma_survivor_unique(tokens, i, j);
}

/// A merged token is one that survives.
proof fn lemma_survivor_index(
    tokens: Seq<AbsoluteSemanticToken>,
    merged: Seq<AbsoluteSemanticToken>,
    k: int,
) -> (i: int)
    requires
        is_merge(tokens, merged),
        0 <= k < merged.len(),
    ensures
        survives(tokens, i),
        tokens[i] == merged[k],
{
    assert(is_survivor(tokens, merged[k]));
    choose|i: int| #[trigger] survives(tokens, i) && tokens[i] == merged[k]
}

/// A merge has a token on the range of each token.
proof fn lemma_cover_index(
    tokens: Seq<AbsoluteSemanticToken>,
    merged: Seq<AbsoluteSemanticToken>,
    i: int,
) -> (k: int)
    requires
        is_merge(tokens, merged),
        0 <= i < tokens.len(),
    ensures
        0 <= k < merged.len(),
        same_range(merged[k], tokens[i]),
{
    assert(covers(merged, tokens[i]));
    choose|k: int| 0 <= k < merged.len() && same_range(#[trigger] merged[k], tokens[i])
}

/// Merging has one result: two lists that both merge the same tokens are equal.
pub proof fn law_merge_unique(
    tokens: Seq<AbsoluteSemanticToken>,
    a: Seq<AbsoluteSemanticToken>,
    b: Seq<AbsoluteSemanticToken>,
)
    requires
        is_merge(tokens, a),
        is_merge(tokens, b),
    ensures
        a == b,
{
    assert forall|k: int| 0 <= k < a.len() implies b.contains(#[trigger] a[k]) by {
        lemma_merge_contains(tokens, a, b, k);
    }
    assert forall|k: int| 0 <= k < b.len() implies a.contains(#[trigger] b[k]) by {
        lemma_merge_contains(tokens, b, a, k);
    }
    lemma_ordered_unique(a, b);
}

/// After a merge no two tokens are on the same range, every token is one of those
/// that were merged, and no token that was merged has a higher precedence than the
/// one on its range.
pub proof fn law_merge_one_per_range(
    tokens: Seq<AbsoluteSemanticToken>,
    merged: Seq<AbsoluteSemanticToken>,
)
    requires
        is_merge(tokens, merged),
    ensures
        forall|i: int, j: int|
            0 <= i < j < merged.len() ==> !same_range(#[trigger] merged[i], #[trigger] merged[j]),
        forall|k: int| 0 <= k < merged.len() ==> tokens.contains(#[trigger] merged[k]),
        forall|i: int, k: int|
            0 <= i < tokens.len() && 0 <= k < merged.len() && same_range(
                #[trigger] tokens[i],
                #[trigger] merged[k],
            ) ==> precedence(tokens[i].token_type) <= precedence(merged[k].token_type),
{
    assert forall|i: int, j: int| 0 <= i < j < merged.len() implies !same_range(
        #[trigger] merged[i],
        #[trigger] merged[j],
    ) by {
        lemma_order_asymmetric(merged[i], merged[j]);
    }
    assert forall|k: int| 0 <= k < merged.len() implies tokens.contains(#[trigger] merged[k]) by {
        assert(is_survivor(tokens, merged[k]));
    }
    assert forall|i: int, k: int|
        0 <= i < tokens.len() && 0 <= k < merged.len() && same_range(
            #[trigger] tokens[i],
            #[trigger] merged[k],
        ) implies precedence(tokens[i].token_type) <= precedence(merged[k].token_type) by {
        assert(is_survivor(tokens, merged[k]));
    }
}

/// Merging tokens that were merged before changes nothing.
pub proof fn law_merge_idempotent(
    tokens: Seq<AbsoluteSemanticToken>,
    merged: Seq<AbsoluteSemanticToken>,
)
    requires
        is_merge(tokens, merged),
    ensures
        is_merge(merged, merged),
{
    law_merge_one_per_range(tokens, merged);
    assert forall|k: int| 0 <= k < merged.len() implies #[trigger] is_survivor(
        merged,
        merged[k],
    ) by {
        assert forall|j: int|
            #![trigger merged[j]]
            0 <= j < merged.len() && same_range(merged[j], merged[k]) implies j == k by {
            if j < k {
                assert(!same_range(merged[j], merged[k]));
            } else if k < j {
                assert(!same_range(merged[k], merged[j]));
            }
        }
        assert(survives(merged, k));
    }
}

/// A sequence that contains a value has it at some index for the first time.
proof fn lemma_first_index<A>(s: Seq<A>, x: A) -> (index: int)
    requires
        s.contains(x),
    ensures
        0 <= index < s.len(),
        s[index] == x,
        forall|k: int| 0 <= k < index ==> s[k] != x,
    decreases s.len(),
{
    if s.drop_last().contains(x) {
        let index = lemma_first_index(s.drop_last(), x);
        assert forall|k: int| 0 <= k < index implies s[k] != x by {
            assert(s.drop_last()[k] == s[k]);
        }
        index
    } else {
        let i = choose|i: int| 0 <= i < s.len() && s[i] == x;
        if i < s.len() - 1 {
            assert(s.drop_last()[i] == x);
        }
        assert forall|k: int| 0 <= k < s.len() - 1 implies s[k] != x by {
            assert(s.drop_last()[k] == s[k]);
        }
        s.len() - 1
    }
}

/// The order in which the tokens of a document are collected, and how often each
/// of them is, makes no difference to the merge: it depends on which tokens there
/// are.
pub proof fn law_merge_order_independent(
    a: Seq<AbsoluteSemanticToken>,
    b: Seq<AbsoluteSemanticToken>,
    merged: Seq<AbsoluteSemanticToken>,
)
    requires
        forall|i: int| 0 <= i < a.len() ==> is_plain(#[trigger] a[i]),
        forall|token: AbsoluteSemanticToken| a.contains(token) <==> b.contains(token),
        is_merge(a, merged),
    ensures
        is_merge(b, merged),
{
    assert forall|k: int| 0 <= k < merged.len() implies #[trigger] is_survivor(b, merged[k]) by {
        assert(is_survivor(a, merged[k]));
        let i = choose|i: int| #[trigger] survives(a, i) && a[i] == merged[k];
        assert(a.contains(merged[k]));
        let j = lemma_first_index(b, merged[k]);
        assert forall|m: int|
            #![trigger b[m]]
            0 <= m < b.len() && same_range(b[m], b[j]) implies precedence(b[m].token_type)
            <= precedence(b[j].token_type) && (m < j ==> precedence(b[m].token_type) < precedence(
            b[j].token_type,
        )) by {
            assert(b.contains(b[m]));
            assert(a.contains(b[m]));
            let n = choose|n: int| 0 <= n < a.len() && a[n] == b[m];
            assert(same_range(a[n], a[i]));
            assert(is_plain(a[n]) && is_plain(a[i]));
            if m < j {
                assert(b[m] != b[j]);
                assert(b[m].token_type != b[j].token_type);
                law_precedence_distinct(b[m].token_type, b[j].token_type);
            }
        }
        assert(survives(b, j));
    }
    assert forall|i: int| 0 <= i < b.len() implies #[trigger] covers(merged, b[i]) by {
        assert(b.contains(b[i]));
        let n = choose|n: int| 0 <= n < a.len() && a[n] == b[i];
        assert(covers(merged, a[n]));
    }
}

/// A range on which some token is that of a macro is left to a macro.
pub proof fn law_macro_wins(
    tokens: Seq<AbsoluteSemanticToken>,
    merged: Seq<AbsoluteSemanticToken>,
    i: int,
    k: int,
)
    requires
        is_merge(tokens, merged),
        0 <= i < tokens.len(),
        tokens[i].token_type == TOKEN_TYPE_MACRO,
        0 <= k < merged.len(),
        same_range(tokens[i], merged[k]),
    ensures
        merged[k].token_type == TOKEN_TYPE_MACRO,
{
    law_merge_one_per_range(tokens, merged);
    if merged[k].token_type != TOKEN_TYPE_MACRO {
        law_precedence_distinct(TOKEN_TYPE_MACRO, merged[k].token_type);
    }
}

/// Merged tokens are ordered by their starts, as the encoding asks for.
pub proof fn law_merge_is_encodable(
    tokens: Seq<AbsoluteSemanticToken>,
    merged: Seq<AbsoluteSemanticToken>,
)
    requires
        is_merge(tokens, merged),
    ensures
        starts_ordered(merged),
{
    assert forall|i: int, j: int| 0 <= i < j < merged.len() implies {
        ||| (#[trigger] merged[i]).line < (#[trigger] merged[j]).line
        ||| merged[i].line == merged[j].line && merged[i].start <= merged[j].start
    } by {
        assert(comes_before(merged[i], merged[j]));
    }
}

/// What a client reads from the relative form: each token is placed from the one
/// before it, the first from the beginning of the document.
pub open spec fn decoded(data: Seq<SemanticToken>) -> Seq<AbsoluteSemanticToken>
    decreases data.len(),
{
    if data.len() == 0 {
        Seq::empty()
    } else {
        let before = decoded(data.drop_last());
        let token = data.last();
        let line = if before.len() == 0 {
            0
        } else {
            before.last().line
        };
        let start = if before.len() == 0 || token.delta_line != 0 {
            0
        } else {
            before.last().start
        };
        before.push(
            AbsoluteSemanticToken {
                line: (line + token.delta_line) as u32,
                start: (start + token.delta_start) as u32,
                length: token.length,
                token_type: token.token_type,
                token_modifiers_bitset: token.token_modifiers_bitset,
            },
        )
    }
}

/// A client that decodes what was encoded has the tokens back.
pub proof fn law_decode_encoded(tokens: Seq<AbsoluteSemanticToken>)
    requires
        starts_ordered(tokens),
    ensures
        decoded(encoded(tokens)) == tokens,
    decreases tokens.len(),
{
    if tokens.len() == 0 {
        assert(decoded(encoded(tokens)) =~= tokens);
    } else {
        let shorter = tokens.drop_last();
        law_decode_encoded(shorter);
        assert forall|i: int| 0 <= i < shorter.len() implies relative_token(shorter, i)
            == #[trigger] relative_token(tokens, i) by {}
        assert(encoded(tokens).drop_last() =~= encoded(shorter));
        assert(encoded(tokens).last() == relative_token(tokens, tokens.len() - 1));
        if tokens.len() > 1 {
            assert(tokens[tokens.len() - 2].line <= tokens[tokens.len() - 1].line);
        }
        assert(decoded(encoded(tokens)) =~= tokens);
    }
}

/// Different tokens have different encodings.
pub proof fn law_encode_injective(
    a: Seq<AbsoluteSemanticToken>,
    b: Seq<AbsoluteSemanticToken>,
)
    requires
        starts_ordered(a),
        starts_ordered(b),
        encoded(a) == encoded(b),
    ensures
        a == b,
{
    law_decode_encoded(a);
    law_decode_encoded(b);
}

/// The answer for a document depends on the document alone: two requests for it
/// get the same tokens, whatever the cache held before each of them.
pub proof fn law_answer_unique(
    document: Document,
    a: Seq<AbsoluteSemanticToken>,
    b: Seq<AbsoluteSemanticToken>,
)
    requires
        is_merge(document_tokens(document), a),
        is_merge(document_tokens(document), b),
    ensures
        encoded(a) == encoded(b),
{
    law_merge_unique(document_tokens(document), a, b);
}

/// The cache never shrinks. It grows to hold as many entries as a document has
/// tokens, where these are not over the limit, and never grows over the limit.
pub proof fn law_capacity_grows(capacity: nat, count: nat)
    ensures
        grown_capacity(capacity, count) >= capacity,
        count <= MAX_GROWN_CAPACITY ==> grown_capacity(capacity, count) >= count,
        grown_capacity(capacity, count) <= capacity || grown_capacity(capacity, count)
            <= MAX_GROWN_CAPACITY,
{
}

/// A second document of the same number of tokens leaves the capacity as the first
/// one has made it.
pub proof fn law_capacity_settles(capacity: nat, count: nat)
    ensures
        grown_capacity(grown_capacity(capacity, count), count) == grown_capacity(capacity, count),
{
}

/// Looking a label up leaves a cache in which it has its own expression, the one
/// that matches it literally and as a whole word, as has every other label. Looking
/// it up again finds that expression and leaves the cache as it is.
pub proof fn law_lookup_twice(
    entries: Seq<(Seq<char>, Seq<char>)>,
    capacity: nat,
    label: Seq<char>,
)
    requires
        is_label_cache(entries, capacity),
    ensures
        ({
            let once = with_recent(entries, capacity, label, word_pattern(label));
            &&& is_label_cache(once, capacity)
            &&& holds(once, label)
            &&& once[index_of(once, label)] == (label, word_pattern(label))
            &&& with_recent(once, capacity, label, word_pattern(label)) == once
        }),
{
    let once = with_recent(entries, capacity, label, word_pattern(label));
    lemma_with_recent(entries, capacity, label);
    assert(once[0] == (label, word_pattern(label)));
    assert(index_of(once, label) == 0);
    assert(with_recent(once, capacity, label, word_pattern(label)) =~= once);
}

/// The labels that were looked up are in front: each is among the first entries,
/// of which there are as many as different labels.
proof fn lemma_labels_in_front(
    entries: Seq<(Seq<char>, Seq<char>)>,
    capacity: nat,
    labels: Seq<Seq<char>>,
    label: Seq<char>,
) -> (index: int)
    requires
        is_label_cache(entries, capacity),
        labels.to_set().len() <= capacity,
        labels.contains(label),
    ensures
        0 <= index < labels.to_set().len(),
        index < with_labels(entries, capacity, labels).len(),
        with_labels(entries, capacity, labels)[index].0 == label,
    decreases labels.len(),
{
    let shorter = labels.drop_last();
    let last = labels.last();
    let before = with_labels(entries, capacity, shorter);
    let after = with_labels(entries, capacity, labels);
    vstd::seq_lib::seq_to_set_is_finite(shorter);
    vstd::seq_lib::seq_to_set_is_finite(labels);
    assert(labels =~= shorter.push(last));
    shorter.lemma_push_to_set_commute(last);
    assert(labels.to_set() == shorter.to_set().insert(last));
    lemma_with_labels(entries, capacity, shorter);
    assert(labels.to_set().contains(last)) by {
        assert(labels[labels.len() - 1] == last);
    }
    vstd::set::axiom_set_insert_len(shorter.to_set(), last);
    if label == last {
        vstd::set::axiom_set_contains_len(labels.to_set(), last);
        0
    } else {
        let i = choose|i: int| 0 <= i < labels.len() && labels[i] == label;
        assert(shorter[i] == label);
        let index = lemma_labels_in_front(entries, capacity, shorter, label);
        if holds(before, last) {
            let n = index_of(before, last);
            if shorter.contains(last) {
                assert(shorter.to_set().contains(last));
                let m = lemma_labels_in_front(entries, capacity, shorter, last);
                assert(m == n);
            } else {
                assert(!shorter.to_set().contains(last));
            }
            if index < n {
                assert(after[index + 1] == before[index]);
                index + 1
            } else {
                assert(after[index] == before[index]);
                index
            }
        } else {
            if shorter.contains(last) {
                let m = lemma_labels_in_front(entries, capacity, shorter, last);
                assert(before[m].0 == last);
            }
            assert(!shorter.to_set().contains(last));
            assert(after[index + 1] == before[index]);
            index + 1
        }
    }
}

/// Where the cache can hold all the different labels of a document, it holds them
/// after they were looked up: looking them up again compiles nothing.
pub proof fn law_labels_stay(
    entries: Seq<(Seq<char>, Seq<char>)>,
    capacity: nat,
    labels: Seq<Seq<char>>,
)
    requires
        is_label_cache(entries, capacity),
        labels.to_set().len() <= capacity,
    ensures
        forall|i: int|
            0 <= i < labels.len() ==> holds(
                with_labels(entries, capacity, labels),
                #[trigger] labels[i],
            ),
{
    assert forall|i: int| 0 <= i < labels.len() implies holds(
        with_labels(entries, capacity, labels),
        #[trigger] labels[i],
    ) by {
        let index = lemma_labels_in_front(entries, capacity, labels, labels[i]);
        assert(with_labels(entries, capacity, labels)[index].0 == labels[i]);
    }
}

/// Each token of a label is where the content has the label from `start` on: a
/// symbol has no token before its scope.
pub proof fn law_tokens_in_scope(
    document: Document,
    label: Seq<char>,
    start: int,
    token_type: u32,
    token: SemanticToken,
)
    requires
        label_tokens(document, label, start, token_type).contains(token),
    ensures
        exists|offset: int|
            start <= offset && #[trigger] position_of(document.positions@, offset) == Some(
                Position { line: token.delta_line, pos: token.delta_start },
            ),
        token.length == label_length(label),
        token.token_type == token_type,
{
    let matches = regex_matches(word_pattern(label), text_from(document.content@, start));
    let f = found_token(document.positions@, start, label_length(label), token_type);
    matches.lemma_filter_map_contains(f, token);
    let range = choose|range: (usize, usize)| matches.contains(range) && f(range) == Some(token);
    assert(position_of(document.positions@, start + range.0) is Some);
}

/// A variable has the same class where it is declared and where it is named: both
/// times it is a parameter, or neither time.
pub proof fn law_declaration_and_use_agree(
    symbol: Symbol,
    is_field: bool,
    file: Seq<u8>,
    keys: Set<(Seq<char>, Range)>,
)
    requires
        symbol.data is Variables,
        range_in(symbol, file) is Some,
    ensures
        variable_token(file, keys)(symbol) matches Some(token) && symbol_class(
            is_field,
            symbol,
            file,
            keys,
        ) == Some(token.token_type),
{
}

/// The class of a word is one of the eight token types.
proof fn lemma_word_class(
    is_field: bool,
    symbols: Seq<Symbol>,
    file: Seq<u8>,
    keys: Set<(Seq<char>, Range)>,
)
    ensures
        word_class(is_field, symbols, file, keys) matches Some(token_type) ==> token_type
            <= TOKEN_TYPE_PROPERTY,
    decreases symbols.len(),
{
    if symbols.len() > 0 {
        lemma_word_class(is_field, symbols.drop_first(), file, keys);
    }
}

/// What a property holds of in each part, it holds of in the whole.
proof fn lemma_flat_map_all<A, B>(s: Seq<A>, f: spec_fn(A) -> Seq<B>, p: spec_fn(B) -> bool)
    requires
        forall|i: int, k: int|
            0 <= i < s.len() && 0 <= k < f(s[i]).len() ==> p(#[trigger] f(s[i])[k]),
    ensures
        forall|k: int| 0 <= k < s.flat_map(f).len() ==> p(#[trigger] s.flat_map(f)[k]),
    decreases s.len(),
{
    if s.len() == 0 {
        assert(s.flat_map(f) =~= Seq::empty());
    } else {
        let shorter = s.drop_last();
        assert forall|i: int, k: int|
            0 <= i < shorter.len() && 0 <= k < f(shorter[i]).len() implies p(
            #[trigger] f(shorter[i])[k],
        ) by {
            assert(f(s[i])[k] == f(shorter[i])[k]);
        }
        lemma_flat_map_all(shorter, f, p);
        shorter.lemma_flat_map_push(f, s.last());
        assert(shorter.push(s.last()) =~= s);
        assert forall|k: int| 0 <= k < s.flat_map(f).len() implies p(
            #[trigger] s.flat_map(f)[k],
        ) by {
            let n = shorter.flat_map(f).len();
            if k < n {
                assert(s.flat_map(f)[k] == shorter.flat_map(f)[k]);
            } else {
                assert(s.flat_map(f)[k] == f(s[s.len() - 1])[k - n]);
            }
        }
    }
}

/// What a property holds of in each value, it holds of in the list of them.
proof fn lemma_filter_map_all<A, B>(s: Seq<A>, f: spec_fn(A) -> Option<B>, p: spec_fn(B) -> bool)
    requires
        forall|i: int| 0 <= i < s.len() ==> (#[trigger] f(s[i]) matches Some(value) ==> p(value)),
    ensures
        forall|k: int| 0 <= k < s.filter_map(f).len() ==> p(#[trigger] s.filter_map(f)[k]),
{
    assert forall|k: int| 0 <= k < s.filter_map(f).len() implies p(
        #[trigger] s.filter_map(f)[k],
    ) by {
        let value = s.filter_map(f)[k];
        assert(s.filter_map(f).contains(value));
        s.lemma_filter_map_contains(f, value);
        let x = choose|x: A| s.contains(x) && f(x) == Some(value);
        let i = choose|i: int| 0 <= i < s.len() && s[i] == x;
        assert(f(s[i]) == Some(value));
    }
}

/// The tokens of a label have its type and no modifier.
proof fn lemma_label_tokens_plain(
    document: Document,
    label: Seq<char>,
    start: int,
    token_type: u32,
)
    requires
        token_type <= TOKEN_TYPE_PROPERTY,
    ensures
        forall|k: int|
            0 <= k < label_tokens(document, label, start, token_type).len() ==> is_plain(
                as_absolute(#[trigger] label_tokens(document, label, start, token_type)[k]),
            ),
{
    let matches = regex_matches(word_pattern(label), text_from(document.content@, start));
    let f = found_token(document.positions@, start, label_length(label), token_type);
    lemma_filter_map_all(matches, f, |token: SemanticToken| is_plain(as_absolute(token)));
}

/// The tokens of macros and of enums are of the eight types, without modifiers.
proof fn lemma_occurrences_plain(document: Document)
    ensures
        forall|k: int|
            0 <= k < macro_tokens(document).len() ==> is_plain(
                as_absolute(#[trigger] macro_tokens(document)[k]),
            ),
        forall|k: int|
            0 <= k < enum_tokens(document).len() ==> is_plain(
                as_absolute(#[trigger] enum_tokens(document)[k]),
            ),
{
    let p = |token: SemanticToken| is_plain(as_absolute(token));
    let macros = document.symbols.macros@;
    let of_macro = symbol_macro_tokens(document);
    assert forall|i: int, k: int|
        0 <= i < macros.len() && 0 <= k < of_macro(macros[i]).len() implies p(
        #[trigger] of_macro(macros[i])[k],
    ) by {
        let start = scope_start(macros[i], document.file_path@).unwrap() as int;
        lemma_label_tokens_plain(document, macros[i].label@, start, TOKEN_TYPE_MACRO);
    }
    lemma_flat_map_all(macros, of_macro, p);
    let types = document.symbols.types@;
    let of_enum = symbol_enum_tokens(document);
    assert forall|i: int, k: int|
        0 <= i < types.len() && 0 <= k < of_enum(types[i]).len() implies p(
        #[trigger] of_enum(types[i])[k],
    ) by {
        if let SymbolData::Enum { values } = types[i].data {
            let start = scope_start(types[i], document.file_path@).unwrap() as int;
            let of_value = value_tokens(document, start);
            let own = label_tokens(document, types[i].label@, start, TOKEN_TYPE_ENUM);
            lemma_label_tokens_plain(document, types[i].label@, start, TOKEN_TYPE_ENUM);
            assert forall|j: int, m: int|
                0 <= j < values@.len() && 0 <= m < of_value(values@[j]).len() implies p(
                #[trigger] of_value(values@[j])[m],
            ) by {
                lemma_label_tokens_plain(
                    document,
                    values@[j].label@,
                    start,
                    TOKEN_TYPE_ENUM_MEMBER,
                );
            }
            lemma_flat_map_all(values@, of_value, p);
            if k >= own.len() {
                assert(of_enum(types[i])[k] == values@.flat_map(of_value)[k - own.len()]);
            }
        }
    }
    lemma_flat_map_all(types, of_enum, p);
}

/// The tokens of declarations are of the eight types, without modifiers.
proof fn lemma_declarations_plain(document: Document)
    ensures
        forall|k: int|
            0 <= k < declaration_tokens(document).len() ==> is_plain(
                #[trigger] declaration_tokens(document)[k],
            ),
{
    let p = |token: AbsoluteSemanticToken| is_plain(token);
    let file = document.file_path@;
    let keys = parameter_keys(document.symbols.functions@, file);
    lemma_filter_map_all(document.symbols.variables@, variable_token(file, keys), p);
    lemma_filter_map_all(document.symbols.functions@, function_token(file), p);
    let types = document.symbols.types@;
    let of_type = type_tokens(file);
    assert forall|i: int, k: int|
        0 <= i < types.len() && 0 <= k < of_type(types[i]).len() implies p(
        #[trigger] of_type(types[i])[k],
    ) by {
        let inner = inner_tokens(types[i].data);
        match types[i].data {
            SymbolData::Struct { members, methods } => {
                lemma_filter_map_all(members@, inner_token(TOKEN_TYPE_PROPERTY), p);
                lemma_filter_map_all(methods@, inner_token(TOKEN_TYPE_FUNCTION), p);
            },
            SymbolData::Enum { values } => {
                lemma_filter_map_all(values@, inner_token(TOKEN_TYPE_ENUM_MEMBER), p);
            },
            _ => {},
        }
        assert forall|m: int| 0 <= m < inner.len() implies p(#[trigger] inner[m]) by {}
        if k > 0 {
            assert(of_type(types[i])[k] == inner[k - 1]);
        }
    }
    lemma_flat_map_all(types, of_type, p);
}

/// Every token of a document is of one of the eight types and has no modifier,
/// before the tokens are merged and after they are encoded.
pub proof fn law_tokens_plain(document: Document, merged: Seq<AbsoluteSemanticToken>)
    requires
        is_merge(document_tokens(document), merged),
    ensures
        forall|i: int|
            0 <= i < document_tokens(document).len() ==> is_plain(
                #[trigger] document_tokens(document)[i],
            ),
        forall|i: int|
            0 <= i < encoded(merged).len() ==> (#[trigger] encoded(merged)[i]).token_type
                <= TOKEN_TYPE_PROPERTY && encoded(merged)[i].token_modifiers_bitset == 0,
{
    lemma_occurrences_plain(document);
    lemma_declarations_plain(document);
    let file = document.file_path@;
    let keys = parameter_keys(document.symbols.functions@, file);
    let matches = regex_matches(IDENTIFIER_PATTERN@, document.content@);
    let f = identifier_token(document);
    assert forall|i: int| 0 <= i < matches.len() implies (#[trigger] f(matches[i]) matches Some(
        token,
    ) ==> is_plain(token)) by {
        let word = document.words@[matches[i].0];
        lemma_word_class(word.is_field, word.symbols@, file, keys);
    }
    lemma_filter_map_all(matches, f, |token: AbsoluteSemanticToken| is_plain(token));
    let macros = absolute_tokens(macro_tokens(document));
    let enums = absolute_tokens(enum_tokens(document));
    let declarations = declaration_tokens(document);
    let identifiers = identifier_tokens(document);
    let tokens = document_tokens(document);
    assert forall|i: int| 0 <= i < tokens.len() implies is_plain(#[trigger] tokens[i]) by {
        let a = macros.len() as int;
        let b = a + enums.len();
        let c = b + declarations.len();
        if i < a {
            assert(tokens[i] == as_absolute(macro_tokens(document)[i]));
        } else if i < b {
            assert(tokens[i] == as_absolute(enum_tokens(document)[i - a]));
        } else if i < c {
            assert(tokens[i] == declarations[i - b]);
        } else {
            assert(tokens[i] == identifiers[i - c]);
        }
    }
    law_merge_one_per_range(tokens, merged);
    assert forall|i: int| 0 <= i < encoded(merged).len() implies (
    #[trigger] encoded(merged)[i]).token_type <= TOKEN_TYPE_PROPERTY
        && encoded(merged)[i].token_modifiers_bitset == 0 by {
        assert(tokens.contains(merged[i]));
    }
}

} // verus!
