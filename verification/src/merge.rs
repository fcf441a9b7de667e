//! Keeping one token per text range, and the relative encoding.

use vstd::prelude::*;

use crate::server::ServerLanguage;
use crate::token::{
    as_absolute, AbsoluteSemanticToken, SemanticToken, TOKEN_TYPE_ENUM, TOKEN_TYPE_ENUM_MEMBER,
    TOKEN_TYPE_FUNCTION, TOKEN_TYPE_MACRO, TOKEN_TYPE_PARAMETER, TOKEN_TYPE_PROPERTY,
    TOKEN_TYPE_TYPE, TOKEN_TYPE_VARIABLE,
};

verus! {

/// How strongly a token type claims a range: of two tokens on the same range,
/// the one of the higher precedence is kept. Unknown types have none.
pub open spec fn precedence(token_type: u32) -> u8 {
    if token_type == TOKEN_TYPE_MACRO {
        8
    } else if token_type == TOKEN_TYPE_ENUM_MEMBER {
        7
    } else if token_type == TOKEN_TYPE_PARAMETER {
        6
    } else if token_type == TOKEN_TYPE_PROPERTY {
        5
    } else if token_type == TOKEN_TYPE_FUNCTION {
        4
    } else if token_type == TOKEN_TYPE_ENUM {
        3
    } else if token_type == TOKEN_TYPE_TYPE {
        2
    } else if token_type == TOKEN_TYPE_VARIABLE {
        1
    } else {
        0
    }
}

/// Two tokens cover the same text.
pub open spec fn same_range(a: AbsoluteSemanticToken, b: AbsoluteSemanticToken) -> bool {
    a.line == b.line && a.start == b.start && a.length == b.length
}

/// `a` comes before `b` by line, then by start, then by length.
pub open spec fn comes_before(a: AbsoluteSemanticToken, b: AbsoluteSemanticToken) -> bool {
    ||| a.line < b.line
    ||| a.line == b.line && a.start < b.start
    ||| a.line == b.line && a.start == b.start && a.length < b.length
}

/// Each token comes before all that follow it.
pub open spec fn strictly_ordered(tokens: Seq<AbsoluteSemanticToken>) -> bool {
    forall|i: int, j: int|
        0 <= i < j < tokens.len() ==> comes_before(#[trigger] tokens[i], #[trigger] tokens[j])
}

/// The token at `i` is the one that is kept on its range: it has the highest
/// precedence there, and no token before it on that range has the same one.
pub open spec fn survives(tokens: Seq<AbsoluteSemanticToken>, i: int) -> bool {
    &&& 0 <= i < tokens.len()
    &&& forall|j: int|
        #![trigger tokens[j]]
        0 <= j < tokens.len() && same_range(tokens[j], tokens[i]) ==> {
            &&& precedence(tokens[j].token_type) <= precedence(tokens[i].token_type)
            &&& j < i ==> precedence(tokens[j].token_type) < precedence(tokens[i].token_type)
        }
}

/// The token is one that `tokens` keeps.
pub open spec fn is_survivor(
    tokens: Seq<AbsoluteSemanticToken>,
    token: AbsoluteSemanticToken,
) -> bool {
    exists|i: int| #[trigger] survives(tokens, i) && tokens[i] == token
}

/// Some token covers the same text as `token`.
pub open spec fn covers(
    tokens: Seq<AbsoluteSemanticToken>,
    token: AbsoluteSemanticToken,
) -> bool {
    exists|k: int| 0 <= k < tokens.len() && same_range(#[trigger] tokens[k], token)
}

/// `merged` holds, in order, the token that is kept on each range of `tokens`.
pub open spec fn is_merge(
    tokens: Seq<AbsoluteSemanticToken>,
    merged: Seq<AbsoluteSemanticToken>,
) -> bool {
    &&& strictly_ordered(merged)
    &&& forall|k: int| 0 <= k < merged.len() ==> #[trigger] is_survivor(tokens, merged[k])
    &&& forall|i: int| 0 <= i < tokens.len() ==> #[trigger] covers(merged, tokens[i])
}

/// Every token starts where the one before starts, or after it.
pub open spec fn starts_ordered(tokens: Seq<AbsoluteSemanticToken>) -> bool {
    forall|i: int, j: int|
        0 <= i < j < tokens.len() ==> {
            ||| (#[trigger] tokens[i]).line < (#[trigger] tokens[j]).line
            ||| tokens[i].line == tokens[j].line && tokens[i].start <= tokens[j].start
        }
}

/// The token at `i` relative to the one before it: lines count from the line of
/// that token, and starts from its start where both are on one line. The first
/// token is relative to the beginning of the document.
pub open spec fn relative_token(tokens: Seq<AbsoluteSemanticToken>, i: int) -> SemanticToken {
    let token = tokens[i];
    let line = if i == 0 {
        0
    } else {
        tokens[i - 1].line
    };
    let start = if i == 0 || token.line != line {
        0
    } else {
        tokens[i - 1].start
    };
    SemanticToken {
        delta_line: (token.line - line) as u32,
        delta_start: (token.start - start) as u32,
        length: token.length,
        token_type: token.token_type,
        token_modifiers_bitset: token.token_modifiers_bitset,
    }
}

/// The relative form of a list of tokens.
pub open spec fn encoded(tokens: Seq<AbsoluteSemanticToken>) -> Seq<SemanticToken> {
    Seq::new(tokens.len(), |i: int| relative_token(tokens, i))
}

/// The index at which the list has a token on the range of `token`, or else the
/// one at which it would have to be inserted.
fn find_range(tokens: &Vec<AbsoluteSemanticToken>, token: &AbsoluteSemanticToken) -> (index: usize)
    requires
        strictly_ordered(tokens@),
    ensures
        index <= tokens.len(),
        forall|k: int| 0 <= k < index ==> comes_before(#[trigger] tokens[k], *token),
        forall|k: int|
            index <= k < tokens.len() ==> !comes_before(#[trigger] tokens[k], *token),
{
    let mut low: usize = 0;
    let mut high: usize = tokens.len();
    while low < high
        invariant
            low <= high <= tokens.len(),
            strictly_ordered(tokens@),
            forall|k: int| 0 <= k < low ==> comes_before(#[trigger] tokens[k], *token),
            forall|k: int|
                high <= k < tokens.len() ==> !comes_before(#[trigger] tokens[k], *token),
        decreases high - low,
    {
        let middle: usize = low + (high - low) / 2;
        let other = tokens[middle];
        let before = other.line < token.line || (other.line == token.line && (other.start
            < token.start || (other.start == token.start && other.length < token.length)));
        if before {
            low = middle + 1;
        } else {
            high = middle;
        }
    }
    low
}

/// A token on a new range joins the list at its place in the order.
proof fn lemma_merge_insert(
    tokens: Seq<AbsoluteSemanticToken>,
    merged: Seq<AbsoluteSemanticToken>,
    token: AbsoluteSemanticToken,
    index: int,
)
    requires
        is_merge(tokens, merged),
        0 <= index <= merged.len(),
        forall|k: int| 0 <= k < index ==> comes_before(#[trigger] merged[k], token),
        forall|k: int| index <= k < merged.len() ==> comes_before(token, #[trigger] merged[k]),
    ensures
        is_merge(tokens.push(token), merged.insert(index, token)),
{
    let new_tokens = tokens.push(token);
    let new_merged = merged.insert(index, token);
    assert(strictly_ordered(new_merged)) by {
        assert forall|i: int, j: int| 0 <= i < j < new_merged.len() implies comes_before(
            #[trigger] new_merged[i],
            #[trigger] new_merged[j],
        ) by {
            if i < index {
                assert(new_merged[i] == merged[i]);
            } else if i > index {
                assert(new_merged[i] == merged[i - 1]);
            }
            if j < index {
                assert(new_merged[j] == merged[j]);
            } else if j > index {
                assert(new_merged[j] == merged[j - 1]);
            }
        }
    }
    assert forall|j: int| 0 <= j < tokens.len() implies !same_range(
        #[trigger] tokens[j],
        token,
    ) by {
        assert(covers(merged, tokens[j]));
        let k = choose|k: int|
            0 <= k < merged.len() && same_range(#[trigger] merged[k], tokens[j]);
        assert(comes_before(merged[k], token) || comes_before(token, merged[k]));
    }
    assert(survives(new_tokens, tokens.len() as int));
    assert(new_tokens[tokens.len() as int] == token);
    assert forall|k: int| 0 <= k < new_merged.len() implies #[trigger] is_survivor(
        new_tokens,
        new_merged[k],
    ) by {
        if k != index {
            let old_k = if k < index {
                k
            } else {
                k - 1
            };
            assert(new_merged[k] == merged[old_k]);
            assert(is_survivor(tokens, merged[old_k]));
            let i = choose|i: int| #[trigger] survives(tokens, i) && tokens[i] == merged[old_k];
            assert(new_tokens[i] == tokens[i]);
            assert(survives(new_tokens, i)) by {
                assert(!same_range(tokens[i], token));
            }
        }
    }
    assert forall|i: int| 0 <= i < new_tokens.len() implies #[trigger] covers(
        new_merged,
        new_tokens[i],
    ) by {
        if i < tokens.len() {
            assert(covers(merged, tokens[i]));
            let k = choose|k: int|
                0 <= k < merged.len() && same_range(#[trigger] merged[k], tokens[i]);
            let new_k = if k < index {
                k
            } else {
                k + 1
            };
            assert(new_merged[new_k] == merged[k]);
        } else {
            assert(new_merged[index] == token);
        }
    }
}

/// A token of a higher precedence takes the range over.
proof fn lemma_merge_replace(
    tokens: Seq<AbsoluteSemanticToken>,
    merged: Seq<AbsoluteSemanticToken>,
    token: AbsoluteSemanticToken,
    index: int,
)
    requires
        is_merge(tokens, merged),
        0 <= index < merged.len(),
        same_range(merged[index], token),
        precedence(token.token_type) > precedence(merged[index].token_type),
    ensures
        is_merge(tokens.push(token), merged.update(index, token)),
{
    let new_tokens = tokens.push(token);
    let new_merged = merged.update(index, token);
    assert(is_survivor(tokens, merged[index]));
    let w = choose|i: int| #[trigger] survives(tokens, i) && tokens[i] == merged[index];
    assert(survives(new_tokens, tokens.len() as int)) by {
        assert forall|j: int|
            #![trigger new_tokens[j]]
            0 <= j < tokens.len() && same_range(new_tokens[j], token) implies precedence(
            new_tokens[j].token_type,
        ) < precedence(token.token_type) by {
            assert(new_tokens[j] == tokens[j]);
        }
    }
    assert(new_tokens[tokens.len() as int] == token);
    assert forall|k: int| 0 <= k < new_merged.len() implies #[trigger] is_survivor(
        new_tokens,
        new_merged[k],
    ) by {
        if k != index {
            assert(new_merged[k] == merged[k]);
            assert(is_survivor(tokens, merged[k]));
            let i = choose|i: int| #[trigger] survives(tokens, i) && tokens[i] == merged[k];
            assert(new_tokens[i] == tokens[i]);
            assert(!same_range(merged[k], merged[index])) by {
                assert(comes_before(merged[k], merged[index]) || comes_before(
                    merged[index],
                    merged[k],
                ));
            }
            assert(survives(new_tokens, i));
        }
    }
    assert forall|i: int| 0 <= i < new_tokens.len() implies #[trigger] covers(
        new_merged,
        new_tokens[i],
    ) by {
        if i < tokens.len() {
            assert(covers(merged, tokens[i]));
            let k = choose|k: int|
                0 <= k < merged.len() && same_range(#[trigger] merged[k], tokens[i]);
            assert(same_range(new_merged[k], tokens[i]));
        } else {
            assert(new_merged[index] == token);
        }
    }
}

/// A token of no higher precedence leaves the range as it is.
proof fn lemma_merge_keep(
    tokens: Seq<AbsoluteSemanticToken>,
    merged: Seq<AbsoluteSemanticToken>,
    token: AbsoluteSemanticToken,
    index: int,
)
    requires
        is_merge(tokens, merged),
        0 <= index < merged.len(),
        same_range(merged[index], token),
        precedence(token.token_type) <= precedence(merged[index].token_type),
    ensures
        is_merge(tokens.push(token), merged),
{
    let new_tokens = tokens.push(token);
    assert forall|k: int| 0 <= k < merged.len() implies #[trigger] is_survivor(
        new_tokens,
        merged[k],
    ) by {
        assert(is_survivor(tokens, merged[k]));
        let i = choose|i: int| #[trigger] survives(tokens, i) && tokens[i] == merged[k];
        assert(new_tokens[i] == tokens[i]);
        if k != index {
            assert(comes_before(merged[k], merged[index]) || comes_before(
                merged[index],
                merged[k],
            ));
        }
        assert(survives(new_tokens, i));
    }
    assert forall|i: int| 0 <= i < new_tokens.len() implies #[trigger] covers(
        merged,
        new_tokens[i],
    ) by {
        if i < tokens.len() {
            assert(covers(merged, tokens[i]));
        } else {
            assert(same_range(merged[index], new_tokens[i]));
        }
    }
}

impl ServerLanguage {
    /// How strongly a token type claims a range.
    pub fn token_precedence(token_type: u32) -> (result: u8)
        ensures
            result == precedence(token_type),
    {
        match token_type {
            TOKEN_TYPE_MACRO => 8,
            TOKEN_TYPE_ENUM_MEMBER => 7,
            TOKEN_TYPE_PARAMETER => 6,
            TOKEN_TYPE_PROPERTY => 5,
            TOKEN_TYPE_FUNCTION => 4,
            TOKEN_TYPE_ENUM => 3,
            TOKEN_TYPE_TYPE => 2,
            TOKEN_TYPE_VARIABLE => 1,
            _ => 0,
        }
    }

    /// Reads unencoded protocol tokens, one for one.
    pub fn normalize_tokens(tokens: Vec<SemanticToken>) -> (absolute: Vec<AbsoluteSemanticToken>)
        ensures
            absolute@ == tokens@.map_values(|token: SemanticToken| as_absolute(token)),
    {
        let mut absolute: Vec<AbsoluteSemanticToken> = Vec::with_capacity(tokens.len());
        for i in 0..tokens.len()
            invariant
                absolute.len() == i,
                forall|k: int| 0 <= k < i ==> #[trigger] absolute[k] == as_absolute(tokens[k]),
        {
            absolute.push(AbsoluteSemanticToken::from_semantic_token(tokens[i]));
        }
        absolute
    }

    /// Keeps one token per range, the first of the highest precedence, and
    /// orders the tokens by line, start and length.
    pub fn merge_tokens(tokens: Vec<AbsoluteSemanticToken>) -> (merged: Vec<AbsoluteSemanticToken>)
        ensures
            is_merge(tokens@, merged@),
    {
        let mut merged: Vec<AbsoluteSemanticToken> = Vec::new();
        for i in 0..tokens.len()
            invariant
                is_merge(tokens@.take(i as int), merged@),
        {
            let token = tokens[i];
            let index = find_range(&merged, &token);
            let found = index < merged.len() && merged[index].line == token.line
                && merged[index].start == token.start && merged[index].length == token.length;
            assert(tokens@.take(i + 1) =~= tokens@.take(i as int).push(token));
            if !found {
                proof {
                    lemma_merge_insert(tokens@.take(i as int), merged@, token, index as int);
                }
                merged.insert(index, token);
            } else if Self::token_precedence(token.token_type) > Self::token_precedence(
                merged[index].token_type,
            ) {
                proof {
                    lemma_merge_replace(tokens@.take(i as int), merged@, token, index as int);
                }
                merged.set(index, token);
            } else {
                proof {
                    lemma_merge_keep(tokens@.take(i as int), merged@, token, index as int);
                }
            }
        }
        assert(tokens@.take(tokens.len() as int) =~= tokens@);
        merged
    }

    /// The relative form of tokens whose starts are in order.
    pub fn encode_tokens(tokens: Vec<AbsoluteSemanticToken>) -> (data: Vec<SemanticToken>)
        requires
            starts_ordered(tokens@),
        ensures
            data@ == encoded(tokens@),
    {
        let mut data: Vec<SemanticToken> = Vec::with_capacity(tokens.len());
        let mut delta_line: u32 = 0;
        let mut delta_pos: u32 = 0;
        for i in 0..tokens.len()
            invariant
                starts_ordered(tokens@),
                data.len() == i,
                i == 0 ==> delta_line == 0 && delta_pos == 0,
                i > 0 ==> delta_line == tokens[i - 1].line && delta_pos == tokens[i - 1].start,
                forall|k: int| 0 <= k < i ==> #[trigger] data[k] == relative_token(tokens@, k),
        {
            let token = tokens[i];
            if token.line != delta_line {
                delta_pos = 0;
            }
            data.push(
                SemanticToken {
                    delta_line: token.line - delta_line,
                    delta_start: token.start - delta_pos,
                    length: token.length,
                    token_type: token.token_type,
                    token_modifiers_bitset: token.token_modifiers_bitset,
                },
            );
            delta_line = token.line;
            delta_pos = token.start;
        }
        data
    }
}

} // verus!
