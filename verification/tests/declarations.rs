use std::collections::HashMap;

use semantic_tokens::declaration::DeclarationKeys;
use semantic_tokens::server::ServerLanguage;
use semantic_tokens::symbol::{
    ContextType, Declaration, Document, RuntimeSymbol, Signature, Symbol, SymbolData, SymbolList,
    SymbolMode,
};
use semantic_tokens::token::{
    AbsoluteSemanticToken, Position, Range, TOKEN_TYPE_ENUM, TOKEN_TYPE_ENUM_MEMBER,
    TOKEN_TYPE_FUNCTION, TOKEN_TYPE_MACRO, TOKEN_TYPE_PARAMETER, TOKEN_TYPE_PROPERTY,
    TOKEN_TYPE_TYPE, TOKEN_TYPE_VARIABLE,
};

const FILE: &[u8] = b"/shaders/main.hlsl";
const OTHER: &[u8] = b"/shaders/common.hlsl";

fn range(line: u32, start: u32, end: u32) -> Range {
    Range { start: Position { line, pos: start }, end: Position { line, pos: end } }
}

fn symbol(label: &str, file: &[u8], range: Range, data: SymbolData) -> Symbol {
    Symbol {
        label: label.to_string(),
        mode: SymbolMode::Runtime(RuntimeSymbol {
            file_path: file.to_vec(),
            range,
            declared_at: Some(0),
            included_at: None,
        }),
        data,
    }
}

fn intrinsic(label: &str, data: SymbolData) -> Symbol {
    Symbol { label: label.to_string(), mode: SymbolMode::Other, data }
}

fn declaration(label: &str, range: Option<Range>) -> Declaration {
    Declaration { label: label.to_string(), range }
}

fn function(label: &str, file: &[u8], at: Range, parameters: Vec<Declaration>) -> Symbol {
    symbol(label, file, at, SymbolData::Functions { signatures: vec![Signature { parameters }] })
}

fn document(types: Vec<Symbol>, functions: Vec<Symbol>, variables: Vec<Symbol>) -> Document {
    Document {
        file_path: FILE.to_vec(),
        content: String::new(),
        positions: vec![Some(Position { line: 0, pos: 0 })],
        symbols: SymbolList { macros: Vec::new(), types, functions, variables },
        words: HashMap::new(),
    }
}

fn classify(is_field: bool, symbols: Vec<Symbol>) -> Option<u32> {
    let mut keys = DeclarationKeys::new();
    keys.insert(ServerLanguage::declaration_key("uv", &range(1, 8, 10)));
    ServerLanguage::classify_word_symbol(is_field, &symbols, &FILE.to_vec(), &keys)
}

#[test]
fn a_key_holds_label_and_range() {
    let at = Range {
        start: Position { line: 1, pos: 2 },
        end: Position { line: 3, pos: 4 },
    };
    let key = ServerLanguage::declaration_key("color", &at);
    assert_eq!(key.label, "color");
    assert_eq!((key.start_line, key.start_pos, key.end_line, key.end_pos), (1, 2, 3, 4));
}

#[test]
fn a_key_set_tells_labels_and_ranges_apart() {
    let mut keys = DeclarationKeys::new();
    let key = ServerLanguage::declaration_key("a", &range(1, 2, 3));
    assert!(!keys.contains(&key));
    keys.insert(ServerLanguage::declaration_key("a", &range(1, 2, 3)));
    keys.insert(ServerLanguage::declaration_key("a", &range(1, 2, 3)));
    assert!(keys.contains(&key));
    assert!(!keys.contains(&ServerLanguage::declaration_key("b", &range(1, 2, 3))));
    assert!(!keys.contains(&ServerLanguage::declaration_key("a", &range(2, 2, 3))));
    assert!(!keys.contains(&ServerLanguage::declaration_key("a", &range(1, 1, 3))));
    assert!(!keys.contains(&ServerLanguage::declaration_key("a", &range(1, 2, 4))));
}

#[test]
fn parameter_keys_come_from_functions_of_the_file() {
    let overloaded = SymbolData::Functions {
        signatures: vec![
            Signature { parameters: vec![declaration("a", Some(range(1, 1, 2)))] },
            Signature {
                parameters: vec![
                    declaration("b", None),
                    declaration("c", Some(range(2, 1, 2))),
                ],
            },
        ],
    };
    let functions = vec![
        symbol("f", FILE, range(1, 0, 1), overloaded),
        function("g", OTHER, range(1, 0, 1), vec![declaration("d", Some(range(3, 1, 2)))]),
        intrinsic(
            "h",
            SymbolData::Functions {
                signatures: vec![Signature {
                    parameters: vec![declaration("e", Some(range(4, 1, 2)))],
                }],
            },
        ),
        symbol("m", FILE, range(1, 0, 1), SymbolData::Method),
    ];
    let keys =
        ServerLanguage::collect_parameter_declaration_keys(&functions, &FILE.to_vec());
    assert!(keys.contains(&ServerLanguage::declaration_key("a", &range(1, 1, 2))));
    assert!(keys.contains(&ServerLanguage::declaration_key("c", &range(2, 1, 2))));
    assert!(!keys.contains(&ServerLanguage::declaration_key("b", &range(1, 1, 2))));
    assert!(!keys.contains(&ServerLanguage::declaration_key("d", &range(3, 1, 2))));
    assert!(!keys.contains(&ServerLanguage::declaration_key("e", &range(4, 1, 2))));
}

#[test]
fn a_parameter_symbol_is_declared_where_the_parameter_is() {
    let mut keys = DeclarationKeys::new();
    keys.insert(ServerLanguage::declaration_key("uv", &range(1, 8, 10)));
    let file = FILE.to_vec();
    let here = symbol("uv", FILE, range(1, 8, 10), SymbolData::Variables);
    let shadowed = symbol("uv", FILE, range(2, 8, 10), SymbolData::Variables);
    let elsewhere = symbol("uv", OTHER, range(1, 8, 10), SymbolData::Variables);
    let built_in = intrinsic("uv", SymbolData::Variables);
    assert!(ServerLanguage::is_parameter_symbol(&here, &file, &keys));
    assert!(!ServerLanguage::is_parameter_symbol(&shadowed, &file, &keys));
    assert!(!ServerLanguage::is_parameter_symbol(&elsewhere, &file, &keys));
    assert!(!ServerLanguage::is_parameter_symbol(&built_in, &file, &keys));
}

#[test]
fn a_range_token_starts_where_the_range_does() {
    let mut tokens = vec![AbsoluteSemanticToken::new(0, 0, 1, 0)];
    ServerLanguage::push_range_token(&mut tokens, &range(3, 4, 9), 5, TOKEN_TYPE_TYPE);
    assert_eq!(tokens.len(), 2);
    assert_eq!(tokens[1], AbsoluteSemanticToken::new(3, 4, 5, TOKEN_TYPE_TYPE));
}

#[test]
fn a_length_keeps_its_low_bits() {
    let mut tokens = Vec::new();
    let length = u32::MAX as usize + 3;
    ServerLanguage::push_range_token(&mut tokens, &range(0, 0, 0), length, TOKEN_TYPE_TYPE);
    assert_eq!(tokens[0].length, 2);
}

#[test]
fn declarations_of_the_file_have_tokens() {
    let types = vec![
        symbol(
            "Light",
            FILE,
            range(0, 7, 12),
            SymbolData::Struct {
                members: vec![
                    declaration("color", Some(range(1, 8, 13))),
                    declaration("hidden", None),
                ],
                methods: vec![
                    declaration("shade", Some(range(2, 8, 13))),
                    declaration("none", None),
                ],
            },
        ),
        symbol(
            "Mode",
            FILE,
            range(4, 5, 9),
            SymbolData::Enum {
                values: vec![
                    declaration("On", Some(range(5, 4, 6))),
                    declaration("Off", None),
                ],
            },
        ),
        symbol("Alias", FILE, range(6, 8, 13), SymbolData::Types),
        symbol("Far", OTHER, range(7, 8, 11), SymbolData::Types),
        intrinsic("float4", SymbolData::Types),
    ];
    let functions = vec![
        function("main", FILE, range(8, 5, 9), vec![declaration("uv", Some(range(8, 17, 19)))]),
        function("far", OTHER, range(9, 0, 3), Vec::new()),
    ];
    let variables = vec![
        symbol("uv", FILE, range(8, 17, 19), SymbolData::Variables),
        symbol("local", FILE, range(9, 8, 13), SymbolData::Variables),
        symbol("global", OTHER, range(9, 8, 14), SymbolData::Variables),
    ];
    let tokens =
        ServerLanguage::find_symbol_declaration_tokens(&document(types, functions, variables));
    assert_eq!(
        tokens,
        vec![
            AbsoluteSemanticToken::new(8, 17, 2, TOKEN_TYPE_PARAMETER),
            AbsoluteSemanticToken::new(9, 8, 5, TOKEN_TYPE_VARIABLE),
            AbsoluteSemanticToken::new(8, 5, 4, TOKEN_TYPE_FUNCTION),
            AbsoluteSemanticToken::new(0, 7, 5, TOKEN_TYPE_TYPE),
            AbsoluteSemanticToken::new(1, 8, 5, TOKEN_TYPE_PROPERTY),
            AbsoluteSemanticToken::new(2, 8, 5, TOKEN_TYPE_FUNCTION),
            AbsoluteSemanticToken::new(4, 5, 4, TOKEN_TYPE_ENUM),
            AbsoluteSemanticToken::new(5, 4, 2, TOKEN_TYPE_ENUM_MEMBER),
            AbsoluteSemanticToken::new(6, 8, 5, TOKEN_TYPE_TYPE),
        ]
    );
}

#[test]
fn labels_are_measured_in_bytes() {
    let variables = vec![symbol("été", FILE, range(0, 0, 3), SymbolData::Variables)];
    let tokens = ServerLanguage::find_symbol_declaration_tokens(&document(
        Vec::new(),
        Vec::new(),
        variables,
    ));
    assert_eq!(tokens[0].length, 5);
}

#[test]
fn each_kind_of_symbol_has_its_class() {
    let at = || range(0, 0, 1);
    let one = |data: SymbolData| classify(false, vec![symbol("x", FILE, at(), data)]);
    assert_eq!(one(SymbolData::Macro), Some(TOKEN_TYPE_MACRO));
    assert_eq!(one(SymbolData::CallExpression), Some(TOKEN_TYPE_FUNCTION));
    assert_eq!(one(SymbolData::Functions { signatures: Vec::new() }), Some(TOKEN_TYPE_FUNCTION));
    assert_eq!(one(SymbolData::Method), Some(TOKEN_TYPE_FUNCTION));
    assert_eq!(one(SymbolData::Enum { values: Vec::new() }), Some(TOKEN_TYPE_ENUM));
    assert_eq!(one(SymbolData::Types), Some(TOKEN_TYPE_TYPE));
    assert_eq!(
        one(SymbolData::Struct { members: Vec::new(), methods: Vec::new() }),
        Some(TOKEN_TYPE_TYPE)
    );
    assert_eq!(one(SymbolData::Constants), Some(TOKEN_TYPE_VARIABLE));
    assert_eq!(one(SymbolData::Variables), Some(TOKEN_TYPE_VARIABLE));
    assert_eq!(one(SymbolData::Include), None);
    assert_eq!(one(SymbolData::Keyword), None);
    assert_eq!(one(SymbolData::Parameter { context: ContextType::Enum }), None);
}

#[test]
fn a_field_is_a_property_or_an_enum_member() {
    let field = |context: ContextType| {
        classify(true, vec![intrinsic("x", SymbolData::Parameter { context })])
    };
    assert_eq!(field(ContextType::Enum), Some(TOKEN_TYPE_ENUM_MEMBER));
    assert_eq!(field(ContextType::Other), Some(TOKEN_TYPE_PROPERTY));
    assert_eq!(field(ContextType::Missing), Some(TOKEN_TYPE_PROPERTY));
}

#[test]
fn a_variable_is_classed_alike_where_it_is_declared_and_named() {
    let uv = || symbol("uv", FILE, range(1, 8, 10), SymbolData::Variables);
    assert_eq!(classify(false, vec![uv()]), Some(TOKEN_TYPE_PARAMETER));
    let functions =
        vec![function("f", FILE, range(1, 0, 1), vec![declaration("uv", Some(range(1, 8, 10)))])];
    let tokens = ServerLanguage::find_symbol_declaration_tokens(&document(
        Vec::new(),
        functions,
        vec![uv()],
    ));
    assert_eq!(tokens[0].token_type, TOKEN_TYPE_PARAMETER);
}

#[test]
fn the_first_symbol_with_a_class_decides() {
    let symbols = vec![
        intrinsic("x", SymbolData::Keyword),
        intrinsic("x", SymbolData::Parameter { context: ContextType::Other }),
        intrinsic("x", SymbolData::Types),
        intrinsic("x", SymbolData::Macro),
    ];
    assert_eq!(classify(false, symbols), Some(TOKEN_TYPE_TYPE));
    assert_eq!(classify(false, Vec::new()), None);
}
