use semantic_tokens::server::ServerLanguage;
use semantic_tokens::token::{
    AbsoluteSemanticToken, SemanticToken, TOKEN_TYPE_ENUM, TOKEN_TYPE_ENUM_MEMBER,
    TOKEN_TYPE_FUNCTION, TOKEN_TYPE_MACRO, TOKEN_TYPE_PARAMETER, TOKEN_TYPE_PROPERTY,
    TOKEN_TYPE_TYPE, TOKEN_TYPE_VARIABLE,
};

fn token(line: u32, start: u32, length: u32, token_type: u32) -> AbsoluteSemanticToken {
    AbsoluteSemanticToken::new(line, start, length, token_type)
}

/// Places each token from the one before it, as a client does.
fn decode(data: &[SemanticToken]) -> Vec<AbsoluteSemanticToken> {
    let mut line = 0;
    let mut start = 0;
    let mut tokens = Vec::new();
    for relative in data {
        if relative.delta_line != 0 {
            start = 0;
        }
        line += relative.delta_line;
        start += relative.delta_start;
        tokens.push(AbsoluteSemanticToken {
            line,
            start,
            length: relative.length,
            token_type: relative.token_type,
            token_modifiers_bitset: relative.token_modifiers_bitset,
        });
    }
    tokens
}

#[test]
fn token_types_are_numbered_as_the_legend() {
    assert_eq!(
        [
            TOKEN_TYPE_MACRO,
            TOKEN_TYPE_PARAMETER,
            TOKEN_TYPE_ENUM_MEMBER,
            TOKEN_TYPE_ENUM,
            TOKEN_TYPE_VARIABLE,
            TOKEN_TYPE_FUNCTION,
            TOKEN_TYPE_TYPE,
            TOKEN_TYPE_PROPERTY,
        ],
        [0, 1, 2, 3, 4, 5, 6, 7]
    );
}

#[test]
fn precedence_of_each_type() {
    assert_eq!(ServerLanguage::token_precedence(TOKEN_TYPE_MACRO), 8);
    assert_eq!(ServerLanguage::token_precedence(TOKEN_TYPE_ENUM_MEMBER), 7);
    assert_eq!(ServerLanguage::token_precedence(TOKEN_TYPE_PARAMETER), 6);
    assert_eq!(ServerLanguage::token_precedence(TOKEN_TYPE_PROPERTY), 5);
    assert_eq!(ServerLanguage::token_precedence(TOKEN_TYPE_FUNCTION), 4);
    assert_eq!(ServerLanguage::token_precedence(TOKEN_TYPE_ENUM), 3);
    assert_eq!(ServerLanguage::token_precedence(TOKEN_TYPE_TYPE), 2);
    assert_eq!(ServerLanguage::token_precedence(TOKEN_TYPE_VARIABLE), 1);
    assert_eq!(ServerLanguage::token_precedence(8), 0);
    assert_eq!(ServerLanguage::token_precedence(u32::MAX), 0);
}

#[test]
fn precedences_are_distinct() {
    for a in 0..8 {
        assert!(ServerLanguage::token_precedence(a) > ServerLanguage::token_precedence(99));
        for b in 0..8 {
            let same = ServerLanguage::token_precedence(a) == ServerLanguage::token_precedence(b);
            assert_eq!(same, a == b);
        }
    }
}

#[test]
fn a_new_token_has_no_modifiers() {
    assert_eq!(
        token(3, 4, 5, 6),
        AbsoluteSemanticToken {
            line: 3,
            start: 4,
            length: 5,
            token_type: 6,
            token_modifiers_bitset: 0,
        }
    );
}

#[test]
fn unencoded_tokens_are_read_as_absolute() {
    let tokens = vec![
        SemanticToken {
            delta_line: 7,
            delta_start: 2,
            length: 4,
            token_type: 1,
            token_modifiers_bitset: 9,
        },
        SemanticToken {
            delta_line: 5,
            delta_start: 0,
            length: 1,
            token_type: 0,
            token_modifiers_bitset: 0,
        },
    ];
    let absolute = ServerLanguage::normalize_tokens(tokens);
    assert_eq!(
        absolute,
        vec![
            AbsoluteSemanticToken {
                line: 7,
                start: 2,
                length: 4,
                token_type: 1,
                token_modifiers_bitset: 9,
            },
            token(5, 0, 1, 0),
        ]
    );
    assert!(ServerLanguage::normalize_tokens(Vec::new()).is_empty());
}

#[test]
fn the_highest_precedence_is_kept() {
    let merged = ServerLanguage::merge_tokens(vec![
        token(1, 4, 3, TOKEN_TYPE_VARIABLE),
        token(1, 4, 3, TOKEN_TYPE_MACRO),
        token(1, 4, 3, TOKEN_TYPE_FUNCTION),
    ]);
    assert_eq!(merged, vec![token(1, 4, 3, TOKEN_TYPE_MACRO)]);
}

#[test]
fn the_first_of_equal_precedence_is_kept() {
    let first = AbsoluteSemanticToken { token_modifiers_bitset: 1, ..token(0, 0, 1, 40) };
    let second = AbsoluteSemanticToken { token_modifiers_bitset: 2, ..token(0, 0, 1, 41) };
    assert_eq!(ServerLanguage::merge_tokens(vec![first, second]), vec![first]);
    assert_eq!(ServerLanguage::merge_tokens(vec![second, first]), vec![second]);
}

#[test]
fn merged_tokens_are_ordered() {
    let merged = ServerLanguage::merge_tokens(vec![
        token(2, 0, 1, TOKEN_TYPE_TYPE),
        token(0, 9, 1, TOKEN_TYPE_TYPE),
        token(0, 2, 1, TOKEN_TYPE_TYPE),
        token(1, 5, 1, TOKEN_TYPE_TYPE),
    ]);
    let places: Vec<(u32, u32)> = merged.iter().map(|t| (t.line, t.start)).collect();
    assert_eq!(places, vec![(0, 2), (0, 9), (1, 5), (2, 0)]);
}

#[test]
fn tokens_of_different_lengths_are_both_kept() {
    let merged = ServerLanguage::merge_tokens(vec![
        token(0, 2, 5, TOKEN_TYPE_TYPE),
        token(0, 2, 3, TOKEN_TYPE_MACRO),
    ]);
    assert_eq!(merged.len(), 2);
    assert!(merged.contains(&token(0, 2, 5, TOKEN_TYPE_TYPE)));
    assert!(merged.contains(&token(0, 2, 3, TOKEN_TYPE_MACRO)));
}

#[test]
fn merging_nothing_gives_nothing() {
    assert!(ServerLanguage::merge_tokens(Vec::new()).is_empty());
}

#[test]
fn merging_twice_changes_nothing() {
    let tokens = vec![
        token(4, 1, 2, TOKEN_TYPE_ENUM),
        token(4, 1, 2, TOKEN_TYPE_VARIABLE),
        token(0, 1, 2, TOKEN_TYPE_PROPERTY),
    ];
    let once = ServerLanguage::merge_tokens(tokens);
    let twice = ServerLanguage::merge_tokens(once.clone());
    assert_eq!(once, twice);
}

#[test]
fn the_order_of_collection_makes_no_difference() {
    let mut tokens = vec![
        token(0, 0, 4, TOKEN_TYPE_VARIABLE),
        token(0, 0, 4, TOKEN_TYPE_PARAMETER),
        token(3, 1, 4, TOKEN_TYPE_ENUM),
        token(3, 1, 4, TOKEN_TYPE_TYPE),
        token(0, 0, 4, TOKEN_TYPE_PARAMETER),
    ];
    let forward = ServerLanguage::merge_tokens(tokens.clone());
    tokens.reverse();
    assert_eq!(forward, ServerLanguage::merge_tokens(tokens));
    assert_eq!(
        forward,
        vec![token(0, 0, 4, TOKEN_TYPE_PARAMETER), token(3, 1, 4, TOKEN_TYPE_ENUM)]
    );
}

#[test]
fn tokens_are_encoded_relative_to_the_one_before() {
    let data = ServerLanguage::encode_tokens(vec![
        token(2, 5, 3, 0),
        token(2, 10, 4, 1),
        token(5, 2, 7, 2),
    ]);
    let relative: Vec<(u32, u32, u32, u32)> =
        data.iter().map(|t| (t.delta_line, t.delta_start, t.length, t.token_type)).collect();
    assert_eq!(relative, vec![(2, 5, 3, 0), (0, 5, 4, 1), (3, 2, 7, 2)]);
}

#[test]
fn the_first_line_counts_from_the_beginning() {
    let data = ServerLanguage::encode_tokens(vec![token(0, 6, 1, 4), token(0, 6, 2, 4)]);
    assert_eq!((data[0].delta_line, data[0].delta_start), (0, 6));
    assert_eq!((data[1].delta_line, data[1].delta_start), (0, 0));
}

#[test]
fn decoding_gives_the_tokens_back() {
    let tokens = ServerLanguage::merge_tokens(vec![
        token(9, 3, 2, TOKEN_TYPE_TYPE),
        token(0, 7, 2, TOKEN_TYPE_MACRO),
        token(9, 1, 2, TOKEN_TYPE_ENUM),
        token(4, 4, 4, TOKEN_TYPE_FUNCTION),
        token(u32::MAX, u32::MAX, 4, TOKEN_TYPE_FUNCTION),
    ]);
    let data = ServerLanguage::encode_tokens(tokens.clone());
    assert_eq!(decode(&data), tokens);
}

#[test]
fn different_tokens_are_encoded_differently() {
    let one = vec![token(1, 0, 2, TOKEN_TYPE_TYPE), token(1, 3, 2, TOKEN_TYPE_TYPE)];
    let other = vec![token(1, 0, 2, TOKEN_TYPE_TYPE), token(2, 3, 2, TOKEN_TYPE_TYPE)];
    assert_ne!(ServerLanguage::encode_tokens(one), ServerLanguage::encode_tokens(other));
}
