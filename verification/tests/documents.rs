use std::collections::HashMap;

use semantic_tokens::pattern::label_pattern;
use semantic_tokens::server::ServerLanguage;
use semantic_tokens::symbol::{
    Declaration, Document, RuntimeSymbol, Symbol, SymbolData, SymbolList, SymbolMode, Word,
};
use semantic_tokens::token::{
    AbsoluteSemanticToken, Position, Range, SemanticToken, TOKEN_TYPE_ENUM,
    TOKEN_TYPE_ENUM_MEMBER, TOKEN_TYPE_FUNCTION, TOKEN_TYPE_MACRO, TOKEN_TYPE_TYPE,
    TOKEN_TYPE_VARIABLE,
};

const FILE: &[u8] = b"/shaders/main.hlsl";
const OTHER: &[u8] = b"/shaders/common.hlsl";

/// The line and the column of each character boundary.
fn positions(content: &str) -> Vec<Option<Position>> {
    let mut line = 0;
    let mut pos = 0;
    let mut positions = Vec::new();
    for c in content.chars() {
        positions.push(Some(Position { line, pos }));
        for _ in 1..c.len_utf8() {
            positions.push(None);
        }
        if c == '\n' {
            line += 1;
            pos = 0;
        } else {
            pos += 1;
        }
    }
    positions.push(Some(Position { line, pos }));
    positions
}

fn document(content: &str, macros: Vec<Symbol>, types: Vec<Symbol>) -> Document {
    Document {
        file_path: FILE.to_vec(),
        content: content.to_string(),
        positions: positions(content),
        symbols: SymbolList { macros, types, functions: Vec::new(), variables: Vec::new() },
        words: HashMap::new(),
    }
}

fn zero() -> Range {
    Range { start: Position { line: 0, pos: 0 }, end: Position { line: 0, pos: 0 } }
}

fn runtime(
    label: &str,
    file: &[u8],
    declared_at: Option<usize>,
    included_at: Option<usize>,
    data: SymbolData,
) -> Symbol {
    Symbol {
        label: label.to_string(),
        mode: SymbolMode::Runtime(RuntimeSymbol {
            file_path: file.to_vec(),
            range: zero(),
            declared_at,
            included_at,
        }),
        data,
    }
}

fn intrinsic(label: &str, data: SymbolData) -> Symbol {
    Symbol { label: label.to_string(), mode: SymbolMode::Other, data }
}

fn value(label: &str) -> Declaration {
    Declaration { label: label.to_string(), range: None }
}

fn places(tokens: &[SemanticToken]) -> Vec<(u32, u32, u32, u32)> {
    tokens.iter().map(|t| (t.delta_line, t.delta_start, t.length, t.token_type)).collect()
}

fn macros_of(document: &Document) -> Vec<(u32, u32, u32, u32)> {
    assert!(document.is_valid());
    places(&ServerLanguage::new(4).find_macros(document).unwrap())
}

/// Records a word where the content has `text` for the first time.
fn add_word(document: &mut Document, text: &str, is_field: bool, symbols: Vec<Symbol>) {
    let offset = document.content.find(text).unwrap();
    let start = document.positions[offset].unwrap();
    document.words.insert(offset, Word { start, is_field, symbols });
}

#[test]
fn a_label_pattern_is_literal_and_a_whole_word() {
    assert_eq!(label_pattern("FOO"), "\\b(FOO)\\b");
    assert_eq!(label_pattern("a.b+c"), "\\b(a\\.b\\+c)\\b");
    assert_eq!(
        label_pattern("\\.+*?()|[]{}^$#&-~"),
        "\\b(\\\\\\.\\+\\*\\?\\(\\)\\|\\[\\]\\{\\}\\^\\$\\#\\&\\-\\~)\\b"
    );
    assert_eq!(label_pattern("é %:"), "\\b(é %:)\\b");
}

#[test]
fn a_macro_is_found_as_a_whole_word() {
    let doc = document(
        "FOO FOOD xFOO\nFOO_1 (FOO)",
        vec![intrinsic("FOO", SymbolData::Macro)],
        Vec::new(),
    );
    assert_eq!(
        macros_of(&doc),
        vec![(0, 0, 3, TOKEN_TYPE_MACRO), (1, 7, 3, TOKEN_TYPE_MACRO)]
    );
}

#[test]
fn a_label_is_searched_for_literally() {
    let doc = document("a.b axb", vec![intrinsic("a.b", SymbolData::Macro)], Vec::new());
    assert_eq!(macros_of(&doc), vec![(0, 0, 3, TOKEN_TYPE_MACRO)]);
}

#[test]
fn a_macro_of_the_document_is_found_from_its_declaration_on() {
    let content = "A\n#define A 1\nA";
    let doc = document(
        content,
        vec![runtime("A", FILE, Some(2), Some(0), SymbolData::Macro)],
        Vec::new(),
    );
    assert_eq!(
        macros_of(&doc),
        vec![(1, 8, 1, TOKEN_TYPE_MACRO), (2, 0, 1, TOKEN_TYPE_MACRO)]
    );
}

#[test]
fn a_macro_of_another_file_is_found_from_its_directive_on() {
    let content = "A\n#use common\nA";
    let brought_in = document(
        content,
        vec![runtime("A", OTHER, Some(0), Some(2), SymbolData::Macro)],
        Vec::new(),
    );
    assert_eq!(macros_of(&brought_in), vec![(2, 0, 1, TOKEN_TYPE_MACRO)]);
    let unknown = document(
        content,
        vec![runtime("A", OTHER, None, None, SymbolData::Macro)],
        Vec::new(),
    );
    assert_eq!(
        macros_of(&unknown),
        vec![(0, 0, 1, TOKEN_TYPE_MACRO), (2, 0, 1, TOKEN_TYPE_MACRO)]
    );
}

#[test]
fn a_match_without_a_position_has_no_token() {
    let mut doc = document("A A", vec![intrinsic("A", SymbolData::Macro)], Vec::new());
    doc.positions[0] = None;
    assert_eq!(macros_of(&doc), vec![(0, 2, 1, TOKEN_TYPE_MACRO)]);
    doc.positions.clear();
    assert!(macros_of(&doc).is_empty());
}

#[test]
fn macros_come_in_the_order_of_their_symbols() {
    let doc = document(
        "A B A",
        vec![intrinsic("B", SymbolData::Macro), intrinsic("A", SymbolData::Macro)],
        Vec::new(),
    );
    let starts: Vec<u32> = macros_of(&doc).iter().map(|t| t.1).collect();
    assert_eq!(starts, vec![2, 0, 4]);
}

#[test]
fn enums_and_their_values_are_found_in_the_scope_of_the_enum() {
    let content = "Red Color\nenum Color { Red };\nRed";
    let values = vec![value("Red"), value("Blue")];
    let doc = document(
        content,
        Vec::new(),
        vec![
            intrinsic("Red", SymbolData::Types),
            runtime("Color", FILE, Some(15), None, SymbolData::Enum { values }),
        ],
    );
    assert!(doc.is_valid());
    let tokens = ServerLanguage::new(4).find_enum(&doc).unwrap();
    assert_eq!(
        places(&tokens),
        vec![
            (1, 5, 5, TOKEN_TYPE_ENUM),
            (1, 13, 3, TOKEN_TYPE_ENUM_MEMBER),
            (2, 0, 3, TOKEN_TYPE_ENUM_MEMBER),
        ]
    );
}

#[test]
fn the_scope_start_is_a_word_boundary() {
    let doc = document(
        "xA A",
        vec![runtime("A", FILE, Some(1), None, SymbolData::Macro)],
        Vec::new(),
    );
    let starts: Vec<u32> = macros_of(&doc).iter().map(|t| t.1).collect();
    assert_eq!(starts, vec![1, 3]);
}

#[test]
fn a_document_is_valid_where_scopes_are_between_characters() {
    let scoped = |at: Option<usize>, data: SymbolData| runtime("A", FILE, at, None, data);
    let with_macro = |at| document("éA", vec![scoped(at, SymbolData::Macro)], Vec::new());
    assert!(with_macro(Some(0)).is_valid());
    assert!(!with_macro(Some(1)).is_valid());
    assert!(with_macro(Some(2)).is_valid());
    assert!(with_macro(Some(3)).is_valid());
    assert!(!with_macro(Some(4)).is_valid());
    assert!(!with_macro(None).is_valid());
    let with_type = |data| document("éA", Vec::new(), vec![scoped(None, data)]);
    assert!(with_type(SymbolData::Types).is_valid());
    assert!(!with_type(SymbolData::Enum { values: Vec::new() }).is_valid());
}

#[test]
fn macros_and_enums_are_searched_for_apart() {
    let no_values = || SymbolData::Enum { values: Vec::new() };
    let macro_at = |at| vec![runtime("A", FILE, at, None, SymbolData::Macro)];
    let enum_at = |at| vec![runtime("E", FILE, at, None, no_values())];
    let only_macros = document("A E", macro_at(Some(0)), enum_at(None));
    assert!(only_macros.has_valid_macros());
    assert!(!only_macros.has_valid_enums());
    assert!(!only_macros.is_valid());
    let tokens = ServerLanguage::new(4).find_macros(&only_macros).unwrap();
    assert_eq!(places(&tokens), vec![(0, 0, 1, TOKEN_TYPE_MACRO)]);
    let only_enums = document("A E", macro_at(None), enum_at(Some(0)));
    assert!(!only_enums.has_valid_macros());
    assert!(only_enums.has_valid_enums());
    let tokens = ServerLanguage::new(4).find_enum(&only_enums).unwrap();
    assert_eq!(places(&tokens), vec![(0, 2, 1, TOKEN_TYPE_ENUM)]);
}

#[test]
fn looking_a_label_up_twice_gives_the_same_tokens() {
    let doc = document("A.B A-B B A.B", Vec::new(), Vec::new());
    let label = "A.B".to_string();
    let mut server = ServerLanguage::new(1);
    let first = server.find_label_tokens(&doc, &label, 0, TOKEN_TYPE_TYPE).unwrap();
    let second = server.find_label_tokens(&doc, &label, 0, TOKEN_TYPE_TYPE).unwrap();
    assert_eq!(first, second);
    assert_eq!(places(&first), vec![(0, 0, 3, TOKEN_TYPE_TYPE), (0, 10, 3, TOKEN_TYPE_TYPE)]);
}

#[test]
fn positions_are_counted_after_the_scope_start() {
    let doc = document(
        "é A é A",
        vec![runtime("A", FILE, Some(4), None, SymbolData::Macro)],
        Vec::new(),
    );
    assert_eq!(macros_of(&doc), vec![(0, 6, 1, TOKEN_TYPE_MACRO)]);
}

#[test]
fn identifiers_are_ascii_words() {
    let content = "float4 _x1 = 3a + b2;".to_string();
    let ranges = ServerLanguage::identifier_ranges(&content);
    let words: Vec<&str> = ranges.iter().map(|r| &content[r.0..r.1]).collect();
    assert_eq!(words, vec!["float4", "_x1", "b2"]);
    assert!(ServerLanguage::identifier_ranges(&String::new()).is_empty());
}

#[test]
fn identifiers_have_the_class_of_their_word() {
    let mut doc = document("color = shade(gap);", Vec::new(), Vec::new());
    add_word(&mut doc, "color", false, vec![intrinsic("color", SymbolData::Variables)]);
    add_word(&mut doc, "shade", false, vec![intrinsic("shade", SymbolData::CallExpression)]);
    add_word(&mut doc, "gap", false, Vec::new());
    let tokens = ServerLanguage::find_identifier_symbol_tokens(&doc);
    assert_eq!(
        tokens,
        vec![
            AbsoluteSemanticToken::new(0, 0, 5, TOKEN_TYPE_VARIABLE),
            AbsoluteSemanticToken::new(0, 8, 5, TOKEN_TYPE_FUNCTION),
        ]
    );
}

#[test]
fn a_word_that_starts_elsewhere_gives_no_token() {
    let mut doc = document("a b", Vec::new(), Vec::new());
    add_word(&mut doc, "a", false, vec![intrinsic("a", SymbolData::Types)]);
    add_word(&mut doc, "b", false, vec![intrinsic("b", SymbolData::Types)]);
    doc.words.get_mut(&2).unwrap().start = Position { line: 0, pos: 1 };
    let tokens = ServerLanguage::find_identifier_symbol_tokens(&doc);
    assert_eq!(tokens, vec![AbsoluteSemanticToken::new(0, 0, 1, TOKEN_TYPE_TYPE)]);
    doc.positions[0] = None;
    assert!(ServerLanguage::find_identifier_symbol_tokens(&doc).is_empty());
}

#[test]
fn given_matches_become_tokens() {
    let doc = document("ab cd ef", Vec::new(), Vec::new());
    let tokens = ServerLanguage::occurrence_tokens(&doc, &vec![(0, 2), (3, 5), (90, 91)], 3, 2, 6);
    assert_eq!(places(&tokens), vec![(0, 3, 2, 6), (0, 6, 2, 6)]);
}

#[test]
fn the_sources_are_joined_and_merged() {
    let at = |line, start| SemanticToken {
        delta_line: line,
        delta_start: start,
        length: 3,
        token_type: TOKEN_TYPE_MACRO,
        token_modifiers_bitset: 0,
    };
    let merged = ServerLanguage::join_tokens(
        vec![at(5, 1)],
        vec![at(2, 2)],
        vec![AbsoluteSemanticToken::new(0, 9, 3, TOKEN_TYPE_TYPE)],
        vec![
            AbsoluteSemanticToken::new(5, 1, 3, TOKEN_TYPE_VARIABLE),
            AbsoluteSemanticToken::new(0, 0, 3, TOKEN_TYPE_VARIABLE),
        ],
    );
    assert_eq!(
        merged,
        vec![
            AbsoluteSemanticToken::new(0, 0, 3, TOKEN_TYPE_VARIABLE),
            AbsoluteSemanticToken::new(0, 9, 3, TOKEN_TYPE_TYPE),
            AbsoluteSemanticToken::new(2, 2, 3, TOKEN_TYPE_MACRO),
            AbsoluteSemanticToken::new(5, 1, 3, TOKEN_TYPE_MACRO),
        ]
    );
}

fn shader() -> Document {
    let content = "#define SIZE 4\nenum Mode { On, Off };\nMode mode = On;\nSIZE";
    let values = vec![value("On"), value("Off")];
    let mut doc = document(
        content,
        vec![runtime("SIZE", FILE, Some(8), None, SymbolData::Macro)],
        vec![runtime("Mode", FILE, Some(20), None, SymbolData::Enum { values })],
    );
    add_word(&mut doc, "SIZE", false, vec![intrinsic("SIZE", SymbolData::Variables)]);
    add_word(&mut doc, "mode", false, vec![intrinsic("mode", SymbolData::Variables)]);
    doc
}

fn shader_data() -> Vec<(u32, u32, u32, u32)> {
    vec![
        (0, 0, 4, TOKEN_TYPE_ENUM),
        (0, 8, 4, TOKEN_TYPE_MACRO),
        (1, 5, 4, TOKEN_TYPE_ENUM),
        (0, 7, 2, TOKEN_TYPE_ENUM_MEMBER),
        (0, 4, 3, TOKEN_TYPE_ENUM_MEMBER),
        (1, 0, 4, TOKEN_TYPE_ENUM),
        (0, 5, 4, TOKEN_TYPE_VARIABLE),
        (0, 7, 2, TOKEN_TYPE_ENUM_MEMBER),
        (1, 0, 4, TOKEN_TYPE_MACRO),
    ]
}

#[test]
fn a_document_is_encoded() {
    let doc = shader();
    assert!(doc.is_valid());
    let mut server = ServerLanguage::new(16);
    let tokens = server.recolt_semantic_tokens(&doc).unwrap();
    assert!(tokens.result_id.is_none());
    assert_eq!(places(&tokens.data), shader_data());
    assert!(tokens.data.iter().all(|t| t.token_modifiers_bitset == 0));
    assert_eq!(server.regex_cache_capacity(), 16);
}

#[test]
fn the_tokens_do_not_depend_on_the_cache() {
    let doc = shader();
    let expected = shader_data();
    for capacity in [1, 2, 3, 8, 100] {
        let mut server = ServerLanguage::new(capacity);
        for _ in 0..3 {
            let tokens = server.recolt_semantic_tokens(&doc).unwrap();
            assert_eq!(places(&tokens.data), expected);
        }
    }
}

#[test]
fn an_empty_document_has_no_tokens() {
    let mut server = ServerLanguage::new(1);
    let tokens = server.recolt_semantic_tokens(&document("", Vec::new(), Vec::new())).unwrap();
    assert!(tokens.data.is_empty());
    assert_eq!(server.regex_cache_capacity(), 1);
}

#[test]
fn the_cache_grows_with_the_tokens_of_a_document() {
    let doc = shader();
    let mut server = ServerLanguage::new(2);
    let count = server.recolt_semantic_tokens(&doc).unwrap().data.len();
    assert_eq!(count, 9);
    assert_eq!(server.regex_cache_capacity(), 10);
    server.recolt_semantic_tokens(&doc).unwrap();
    assert_eq!(server.regex_cache_capacity(), 10);
}

#[test]
fn the_cache_grows_by_a_fifth() {
    for count in 2..=2000usize {
        let mut server = ServerLanguage::new(1);
        server.grow_cache(count);
        let expected = std::cmp::min((count as f32 * 1.2) as usize, 2000);
        assert_eq!(server.regex_cache_capacity(), expected);
        assert!(server.regex_cache_capacity() >= count);
    }
}

#[test]
fn the_cache_does_not_grow_over_the_limit() {
    let mut server = ServerLanguage::new(7);
    server.grow_cache(2001);
    assert_eq!(server.regex_cache_capacity(), 7);
    server.grow_cache(7);
    assert_eq!(server.regex_cache_capacity(), 7);
    server.grow_cache(1900);
    assert_eq!(server.regex_cache_capacity(), 2000);
    let mut large = ServerLanguage::new(3000);
    large.grow_cache(2000);
    assert_eq!(large.regex_cache_capacity(), 3000);
}

#[test]
fn a_grown_cache_keeps_its_expressions() {
    let labels = ["A", "B", "C", "D", "E"];
    let macros = || labels.iter().map(|l| intrinsic(l, SymbolData::Macro)).collect();
    let doc = document("E D C B A", macros(), Vec::new());
    let mut server = ServerLanguage::new(5);
    let before = places(&server.find_macros(&doc).unwrap());
    server.grow_cache(50);
    assert_eq!(server.regex_cache_capacity(), 60);
    assert_eq!(places(&server.find_macros(&doc).unwrap()), before);
    let starts: Vec<u32> = before.iter().map(|t| t.1).collect();
    assert_eq!(starts, vec![8, 6, 4, 2, 0]);
}

#[test]
fn a_label_that_is_too_long_to_compile_is_reported() {
    let label = "a".repeat(3_000_000);
    let doc = document(
        "A",
        vec![intrinsic("A", SymbolData::Macro), intrinsic(&label, SymbolData::Macro)],
        Vec::new(),
    );
    let mut server = ServerLanguage::new(4);
    match server.recolt_semantic_tokens(&doc) {
        Ok(_) => panic!("compiled"),
        Err(error) => assert_eq!(error.pattern, label_pattern(&label)),
    }
    let short = document("A", vec![intrinsic("A", SymbolData::Macro)], Vec::new());
    assert_eq!(server.recolt_semantic_tokens(&short).unwrap().data.len(), 1);
}

#[test]
fn a_label_of_the_longest_sure_length_compiles() {
    let label = "é".repeat(163_800);
    let content = format!("x {} x", label);
    let doc = document(&content, vec![intrinsic(&label, SymbolData::Macro)], Vec::new());
    assert_eq!(macros_of(&doc), vec![(0, 2, 327_600, TOKEN_TYPE_MACRO)]);
}
