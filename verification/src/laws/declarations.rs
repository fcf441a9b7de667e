//! Which keys and which tokens the declarations of a document have.

use vstd::prelude::*;
use vstd::utf8::encode_utf8;

use crate::declaration::{
    declaration_tokens, declared_key, function_keys, function_token, inner_token, inner_tokens,
    is_parameter, parameter_keys, signature_keys, symbol_class, type_tokens, variable_token,
    word_class,
};
use crate::laws::listing::{
    lemma_filter_map_has, lemma_filter_map_listing, lemma_flatten_has, lemma_flatten_part,
};
use crate::symbol::{
    ContextType, Declaration, Document, RuntimeSymbol, Signature, Symbol, SymbolData, SymbolMode,
};
use crate::token::{AbsoluteSemanticToken, Range};

verus! {

/// Every parameter is found: for each function that the file declares, each of its
/// signatures and each parameter of the signature that has a range, the label and the
/// range of the parameter are among the keys.
pub proof fn law_parameter_found(
    functions: Seq<Symbol>,
    file: Seq<u8>,
    i: int,
    runtime: RuntimeSymbol,
    signatures: Vec<Signature>,
    j: int,
    k: int,
    range: Range,
)
    requires
        0 <= i < functions.len(),
        functions[i].mode == SymbolMode::Runtime(runtime),
        runtime.file_path@ == file,
        functions[i].data == (SymbolData::Functions { signatures }),
        0 <= j < signatures.len(),
        0 <= k < signatures[j].parameters.len(),
        signatures[j].parameters[k].range == Some(range),
    ensures
        parameter_keys(functions, file).contains((signatures[j].parameters[k].label@, range)),
{
    let parameters = signatures[j].parameters@;
    let key = (parameters[k].label@, range);
    lemma_filter_map_has(parameters, declared_key(), k, key);
    let of_signatures = signatures@.map_values(signature_keys());
    assert(of_signatures[j] == parameters.filter_map(declared_key()));
    lemma_flatten_has(of_signatures, j, key);
    let of_functions = functions.map_values(function_keys(file));
    assert(of_functions[i] == of_signatures.flatten());
    lemma_flatten_has(of_functions, i, key);
}

/// Nothing else is among the keys: each of them is the label and the range of a
/// parameter, in a signature of a function that the file declares.
pub proof fn law_parameter_only(
    functions: Seq<Symbol>,
    file: Seq<u8>,
    key: (Seq<char>, Range),
) -> (at: (int, int, int))
    requires
        parameter_keys(functions, file).contains(key),
    ensures
        ({
            let (i, j, k) = at;
            &&& 0 <= i < functions.len()
            &&& functions[i].mode matches SymbolMode::Runtime(runtime)
            &&& runtime.file_path@ == file
            &&& functions[i].data matches SymbolData::Functions { signatures }
            &&& 0 <= j < signatures.len()
            &&& 0 <= k < signatures[j].parameters.len()
            &&& signatures[j].parameters[k].range == Some(key.1)
            &&& signatures[j].parameters[k].label@ == key.0
        }),
{
    let of_functions = functions.map_values(function_keys(file));
    assert(of_functions.flatten().contains(key));
    let i = lemma_flatten_part(of_functions, key);
    assert(of_functions[i] == function_keys(file)(functions[i]));
    let signatures = functions[i].data->signatures;
    let of_signatures = signatures@.map_values(signature_keys());
    assert(of_functions[i] == of_signatures.flatten());
    let j = lemma_flatten_part(of_signatures, key);
    let parameters = signatures[j].parameters@;
    assert(of_signatures[j] == parameters.filter_map(declared_key()));
    let at = lemma_filter_map_listing(parameters, declared_key());
    let n = of_signatures[j].index_of(key);
    assert(declared_key()(parameters[at[n]]) == Some(key));
    (i, j, at[n])
}

/// A symbol is a parameter where the file declares it, and some function of the file
/// has a parameter of the same label in the same range. Nothing else is one.
pub proof fn law_is_parameter(symbol: Symbol, file: Seq<u8>, keys: Set<(Seq<char>, Range)>)
    ensures
        symbol.mode matches SymbolMode::Runtime(runtime) ==> (is_parameter(symbol, file, keys)
            <==> runtime.file_path@ == file && keys.contains((symbol.label@, runtime.range))),
        symbol.mode is Other ==> !is_parameter(symbol, file, keys),
{
}

/// Every variable that the document declares has a token where it is declared, as
/// long as its label: a parameter token if the key of the variable is that of a
/// parameter, else a variable token.
pub proof fn law_variable_declared(document: Document, i: int, runtime: RuntimeSymbol)
    requires
        0 <= i < document.symbols.variables.len(),
        document.symbols.variables[i].mode == SymbolMode::Runtime(runtime),
        runtime.file_path@ == document.file_path@,
    ensures
        declaration_tokens(document).contains(
            AbsoluteSemanticToken {
                line: runtime.range.start.line,
                start: runtime.range.start.pos,
                length: (encode_utf8(document.symbols.variables[i].label@).len()
                    % 0x1_0000_0000) as u32,
                token_type: if parameter_keys(
                    document.symbols.functions@,
                    document.file_path@,
                ).contains((document.symbols.variables[i].label@, runtime.range)) {
                    1
                } else {
                    4
                },
                token_modifiers_bitset: 0,
            },
        ),
{
    let file = document.file_path@;
    let variables = document.symbols.variables@;
    let f = variable_token(file, parameter_keys(document.symbols.functions@, file));
    let token = f(variables[i]).unwrap();
    lemma_filter_map_has(variables, f, i, token);
    let k = variables.filter_map(f).index_of(token);
    assert(declaration_tokens(document)[k] == token);
}

/// Every function that the document declares has a function token where it is
/// declared, as long as its label.
pub proof fn law_function_declared(document: Document, i: int, runtime: RuntimeSymbol)
    requires
        0 <= i < document.symbols.functions.len(),
        document.symbols.functions[i].mode == SymbolMode::Runtime(runtime),
        runtime.file_path@ == document.file_path@,
    ensures
        declaration_tokens(document).contains(
            AbsoluteSemanticToken {
                line: runtime.range.start.line,
                start: runtime.range.start.pos,
                length: (encode_utf8(document.symbols.functions[i].label@).len()
                    % 0x1_0000_0000) as u32,
                token_type: 5,
                token_modifiers_bitset: 0,
            },
        ),
{
    let file = document.file_path@;
    let functions = document.symbols.functions@;
    let of_variables = document.symbols.variables@.filter_map(
        variable_token(file, parameter_keys(functions, file)),
    );
    let f = function_token(file);
    let token = f(functions[i]).unwrap();
    lemma_filter_map_has(functions, f, i, token);
    let k = functions.filter_map(f).index_of(token);
    assert(declaration_tokens(document)[of_variables.len() + k] == token);
}

/// A token of a type is among the declaration tokens.
proof fn lemma_type_token(document: Document, i: int, token: AbsoluteSemanticToken)
    requires
        0 <= i < document.symbols.types.len(),
        type_tokens(document.file_path@)(document.symbols.types[i]).contains(token),
    ensures
        declaration_tokens(document).contains(token),
{
    let file = document.file_path@;
    let parts = document.symbols.types@.map_values(type_tokens(file));
    assert(parts[i] == type_tokens(file)(document.symbols.types[i]));
    lemma_flatten_has(parts, i, token);
    let before = document.symbols.variables@.filter_map(
        variable_token(file, parameter_keys(document.symbols.functions@, file)),
    ) + document.symbols.functions@.filter_map(function_token(file));
    let k = parts.flatten().index_of(token);
    assert(declaration_tokens(document)[before.len() + k] == token);
}

/// Every type that the document declares has a token where it is declared, as long
/// as its label: an enum token if it is an enum, else a type token.
pub proof fn law_type_declared(document: Document, i: int, runtime: RuntimeSymbol)
    requires
        0 <= i < document.symbols.types.len(),
        document.symbols.types[i].mode == SymbolMode::Runtime(runtime),
        runtime.file_path@ == document.file_path@,
    ensures
        declaration_tokens(document).contains(
            AbsoluteSemanticToken {
                line: runtime.range.start.line,
                start: runtime.range.start.pos,
                length: (encode_utf8(document.symbols.types[i].label@).len()
                    % 0x1_0000_0000) as u32,
                token_type: if document.symbols.types[i].data is Enum {
                    3
                } else {
                    6
                },
                token_modifiers_bitset: 0,
            },
        ),
{
    let tokens = type_tokens(document.file_path@)(document.symbols.types[i]);
    assert(tokens.contains(tokens[0]));
    lemma_type_token(document, i, tokens[0]);
}

/// Every member of a struct that the document declares has a property token at the
/// start of its range, if it has one, as long as its label, whatever methods the
/// struct has.
pub proof fn law_member_declared(
    document: Document,
    i: int,
    runtime: RuntimeSymbol,
    members: Vec<Declaration>,
    methods: Vec<Declaration>,
    j: int,
    range: Range,
)
    requires
        0 <= i < document.symbols.types.len(),
        document.symbols.types[i].mode == SymbolMode::Runtime(runtime),
        runtime.file_path@ == document.file_path@,
        document.symbols.types[i].data == (SymbolData::Struct { members, methods }),
        0 <= j < members.len(),
        members[j].range == Some(range),
    ensures
        declaration_tokens(document).contains(
            AbsoluteSemanticToken {
                line: range.start.line,
                start: range.start.pos,
                length: (encode_utf8(members[j].label@).len() % 0x1_0000_0000) as u32,
                token_type: 7,
                token_modifiers_bitset: 0,
            },
        ),
{
    let tokens = type_tokens(document.file_path@)(document.symbols.types[i]);
    let token = inner_token(7)(members[j]).unwrap();
    lemma_filter_map_has(members@, inner_token(7), j, token);
    let k = members@.filter_map(inner_token(7)).index_of(token);
    assert(tokens[1 + k] == token);
    lemma_type_token(document, i, token);
}

/// Every method of a struct that the document declares has a function token at the
/// start of its range, if it has one, as long as its label, whatever members the
/// struct has.
pub proof fn law_method_declared(
    document: Document,
    i: int,
    runtime: RuntimeSymbol,
    members: Vec<Declaration>,
    methods: Vec<Declaration>,
    j: int,
    range: Range,
)
    requires
        0 <= i < document.symbols.types.len(),
        document.symbols.types[i].mode == SymbolMode::Runtime(runtime),
        runtime.file_path@ == document.file_path@,
        document.symbols.types[i].data == (SymbolData::Struct { members, methods }),
        0 <= j < methods.len(),
        methods[j].range == Some(range),
    ensures
        declaration_tokens(document).contains(
            AbsoluteSemanticToken {
                line: range.start.line,
                start: range.start.pos,
                length: (encode_utf8(methods[j].label@).len() % 0x1_0000_0000) as u32,
                token_type: 5,
                token_modifiers_bitset: 0,
            },
        ),
{
    let tokens = type_tokens(document.file_path@)(document.symbols.types[i]);
    let token = inner_token(5)(methods[j]).unwrap();
    lemma_filter_map_has(methods@, inner_token(5), j, token);
    let k = methods@.filter_map(inner_token(5)).index_of(token);
    assert(tokens[1 + members@.filter_map(inner_token(7)).len() + k] == token);
    lemma_type_token(document, i, token);
}

/// Every value of an enum that the document declares has an enum member token at the
/// start of its range, if it has one, as long as its label.
pub proof fn law_value_declared(
    document: Document,
    i: int,
    runtime: RuntimeSymbol,
    values: Vec<Declaration>,
    j: int,
    range: Range,
)
    requires
        0 <= i < document.symbols.types.len(),
        document.symbols.types[i].mode == SymbolMode::Runtime(runtime),
        runtime.file_path@ == document.file_path@,
        document.symbols.types[i].data == (SymbolData::Enum { values }),
        0 <= j < values.len(),
        values[j].range == Some(range),
    ensures
        declaration_tokens(document).contains(
            AbsoluteSemanticToken {
                line: range.start.line,
                start: range.start.pos,
                length: (encode_utf8(values[j].label@).len() % 0x1_0000_0000) as u32,
                token_type: 2,
                token_modifiers_bitset: 0,
            },
        ),
{
    let tokens = type_tokens(document.file_path@)(document.symbols.types[i]);
    let token = inner_token(2)(values[j]).unwrap();
    lemma_filter_map_has(values@, inner_token(2), j, token);
    let k = values@.filter_map(inner_token(2)).index_of(token);
    assert(tokens[1 + k] == token);
    lemma_type_token(document, i, token);
}

/// The tokens of the labels inside of a type are, in order, one for each label that
/// has a range: at the start of the range, as long as the label, of the type that was
/// asked for, and without modifiers. `at` tells which label each token is of.
pub proof fn law_labels_listed(declarations: Seq<Declaration>, token_type: u32) -> (at: Seq<int>)
    ensures
        ({
            let tokens = declarations.filter_map(inner_token(token_type));
            &&& at.len() == tokens.len()
            &&& forall|k: int|
                0 <= k < at.len() ==> {
                    &&& 0 <= (#[trigger] at[k]) < declarations.len()
                    &&& declarations[at[k]].range matches Some(range)
                    &&& tokens[k].line == range.start.line
                    &&& tokens[k].start == range.start.pos
                    &&& tokens[k].length == encode_utf8(declarations[at[k]].label@).len()
                        % 0x1_0000_0000
                    &&& tokens[k].token_type == token_type
                    &&& tokens[k].token_modifiers_bitset == 0
                }
            &&& forall|j: int, k: int|
                0 <= j < k < at.len() ==> (#[trigger] at[j]) < (#[trigger] at[k])
            &&& forall|i: int|
                0 <= i < declarations.len() && (#[trigger] declarations[i]).range is Some
                    ==> at.contains(i)
        }),
{
    let tokens = declarations.filter_map(inner_token(token_type));
    let f = inner_token(token_type);
    let at = lemma_filter_map_listing(declarations, f);
    assert forall|k: int| 0 <= k < at.len() implies f(declarations[#[trigger] at[k]]) == Some(
        tokens[k],
    ) by {}
    assert forall|i: int|
        0 <= i < declarations.len() && (
        #[trigger] declarations[i]).range is Some implies at.contains(i) by {
        assert(f(declarations[i]) is Some);
    }
    at
}

/// The tokens of a type that a file does not declare are none. Those of one that it
/// declares are its own and then, of a struct, those of all its members and of all its
/// methods, of an enum those of all its values, and of another type no others.
pub proof fn law_type_listed(symbol: Symbol, file: Seq<u8>)
    ensures
        ({
            let tokens = type_tokens(file)(symbol);
            let inside = tokens.skip(1);
            &&& tokens.len() > 0 <==> (symbol.mode matches SymbolMode::Runtime(runtime)
                && runtime.file_path@ == file)
            &&& tokens.len() > 0 ==> {
                &&& tokens[0].line == symbol.mode->0.range.start.line
                &&& tokens[0].start == symbol.mode->0.range.start.pos
                &&& tokens[0].length == encode_utf8(symbol.label@).len() % 0x1_0000_0000
                &&& (tokens[0].token_type == 3 <==> symbol.data is Enum)
                &&& (tokens[0].token_type == 6 <==> symbol.data !is Enum)
                &&& tokens[0].token_modifiers_bitset == 0
                &&& symbol.data matches SymbolData::Struct { members, methods } ==> {
                    let first = members@.filter_map(inner_token(7));
                    let second = methods@.filter_map(inner_token(5));
                    &&& first == inside.take(first.len() as int)
                    &&& second == inside.skip(first.len() as int)
                }
                &&& symbol.data matches SymbolData::Enum { values } ==> inside
                    == values@.filter_map(inner_token(2))
                &&& symbol.data !is Struct && symbol.data !is Enum ==> inside.len() == 0
            }
        }),
{
    let tokens = type_tokens(file)(symbol);
    if tokens.len() > 0 {
        assert(tokens.skip(1) =~= inner_tokens(symbol.data));
        if let SymbolData::Struct { members, methods } = symbol.data {
            let first = members@.filter_map(inner_token(7));
            let second = methods@.filter_map(inner_token(5));
            assert((first + second).take(first.len() as int) =~= first);
            assert((first + second).skip(first.len() as int) =~= second);
        }
    }
}

/// The declaration tokens are one for each variable that the document declares, then
/// one for each function that it declares, both in order, and then those of its types
/// one after the other. The result tells which variable and which function the tokens
/// are of, and holds the tokens of each type.
pub proof fn law_declarations_listed(document: Document) -> (listed: (
    Seq<int>,
    Seq<int>,
    Seq<Seq<AbsoluteSemanticToken>>,
))
    ensures
        ({
            let (of_variables, of_functions, of_types) = listed;
            let file = document.file_path@;
            let variables = document.symbols.variables@;
            let functions = document.symbols.functions@;
            let tokens = declaration_tokens(document);
            let first = of_variables.len() as int;
            let second = first + of_functions.len();
            &&& second <= tokens.len()
            &&& forall|k: int|
                0 <= k < first ==> {
                    &&& 0 <= (#[trigger] of_variables[k]) < variables.len()
                    &&& variables[of_variables[k]].mode matches SymbolMode::Runtime(runtime)
                    &&& runtime.file_path@ == file
                    &&& tokens[k].line == runtime.range.start.line
                    &&& tokens[k].start == runtime.range.start.pos
                    &&& tokens[k].length == encode_utf8(variables[of_variables[k]].label@).len()
                        % 0x1_0000_0000
                    &&& tokens[k].token_type == if parameter_keys(functions, file).contains(
                        (variables[of_variables[k]].label@, runtime.range),
                    ) {
                        1int
                    } else {
                        4int
                    }
                    &&& tokens[k].token_modifiers_bitset == 0
                }
            &&& forall|k: int|
                0 <= k < of_functions.len() ==> {
                    &&& 0 <= (#[trigger] of_functions[k]) < functions.len()
                    &&& functions[of_functions[k]].mode matches SymbolMode::Runtime(runtime)
                    &&& runtime.file_path@ == file
                    &&& tokens[first + k].line == runtime.range.start.line
                    &&& tokens[first + k].start == runtime.range.start.pos
                    &&& tokens[first + k].length == encode_utf8(
                        functions[of_functions[k]].label@,
                    ).len() % 0x1_0000_0000
                    &&& tokens[first + k].token_type == 5
                    &&& tokens[first + k].token_modifiers_bitset == 0
                }
            &&& forall|j: int, k: int|
                0 <= j < k < first ==> (#[trigger] of_variables[j]) < (#[trigger] of_variables[k])
            &&& forall|j: int, k: int|
                0 <= j < k < of_functions.len() ==> (#[trigger] of_functions[j]) < (
                #[trigger] of_functions[k])
            &&& forall|i: int|
                0 <= i < variables.len() && ((
                #[trigger] variables[i]).mode matches SymbolMode::Runtime(runtime)
                    && runtime.file_path@ == file) ==> of_variables.contains(i)
            &&& forall|i: int|
                0 <= i < functions.len() && ((
                #[trigger] functions[i]).mode matches SymbolMode::Runtime(runtime)
                    && runtime.file_path@ == file) ==> of_functions.contains(i)
            &&& tokens.skip(second) == of_types.flatten()
            &&& of_types.len() == document.symbols.types.len()
            &&& forall|i: int|
                0 <= i < of_types.len() ==> #[trigger] of_types[i] == type_tokens(file)(
                    document.symbols.types[i],
                )
        }),
{
    let file = document.file_path@;
    let variables = document.symbols.variables@;
    let functions = document.symbols.functions@;
    let tokens = declaration_tokens(document);
    let f = variable_token(file, parameter_keys(functions, file));
    let g = function_token(file);
    let of_variables = lemma_filter_map_listing(variables, f);
    let of_functions = lemma_filter_map_listing(functions, g);
    let of_types = document.symbols.types@.map_values(type_tokens(file));
    let first = of_variables.len() as int;
    assert forall|k: int| 0 <= k < first implies f(variables[#[trigger] of_variables[k]]) == Some(
        tokens[k],
    ) by {
        assert(tokens[k] == variables.filter_map(f)[k]);
    }
    assert forall|k: int| 0 <= k < of_functions.len() implies g(
        functions[#[trigger] of_functions[k]],
    ) == Some(tokens[first + k]) by {
        assert(tokens[first + k] == functions.filter_map(g)[k]);
    }
    assert forall|i: int|
        0 <= i < variables.len() && ((#[trigger] variables[i]).mode matches SymbolMode::Runtime(
            runtime,
        ) && runtime.file_path@ == file) implies of_variables.contains(i) by {
        assert(f(variables[i]) is Some);
    }
    assert forall|i: int|
        0 <= i < functions.len() && ((#[trigger] functions[i]).mode matches SymbolMode::Runtime(
            runtime,
        ) && runtime.file_path@ == file) implies of_functions.contains(i) by {
        assert(g(functions[i]) is Some);
    }
    assert(tokens.skip(first + of_functions.len()) =~= of_types.flatten());
    (of_variables, of_functions, of_types)
}

/// What each kind of symbol makes of a word. A parameter makes something of it only
/// where the word is a field, and a variable is told from a parameter by its key.
pub proof fn law_symbol_class(
    is_field: bool,
    symbol: Symbol,
    file: Seq<u8>,
    keys: Set<(Seq<char>, Range)>,
)
    ensures
        ({
            let class = symbol_class(is_field, symbol, file, keys);
            &&& symbol.data is Macro <==> class == Some(0u32)
            &&& symbol.data is CallExpression || symbol.data is Functions || symbol.data is Method
                <==> class == Some(5u32)
            &&& symbol.data is Enum <==> class == Some(3u32)
            &&& symbol.data is Types || symbol.data is Struct <==> class == Some(6u32)
            &&& is_field && symbol.data == (SymbolData::Parameter { context: ContextType::Enum })
                <==> class == Some(2u32)
            &&& is_field && symbol.data is Parameter && symbol.data != (SymbolData::Parameter {
                context: ContextType::Enum,
            }) <==> class == Some(7u32)
            &&& symbol.data is Variables && (symbol.mode matches SymbolMode::Runtime(runtime)
                && runtime.file_path@ == file && keys.contains((symbol.label@, runtime.range)))
                <==> class == Some(1u32)
            &&& symbol.data is Constants || symbol.data is Variables && class != Some(1u32)
                <==> class == Some(4u32)
            &&& symbol.data is Include || symbol.data is Keyword || (symbol.data is Parameter
                && !is_field) <==> class is None
        }),
{
}

/// The first symbol of a word that makes something of it decides, and a word has no
/// class only if none of its symbols does.
pub proof fn law_first_symbol_decides(
    is_field: bool,
    symbols: Seq<Symbol>,
    file: Seq<u8>,
    keys: Set<(Seq<char>, Range)>,
    i: int,
)
    requires
        0 <= i <= symbols.len(),
        forall|j: int|
            0 <= j < i ==> symbol_class(is_field, #[trigger] symbols[j], file, keys) is None,
        i < symbols.len() ==> symbol_class(is_field, symbols[i], file, keys) is Some,
    ensures
        i < symbols.len() ==> word_class(is_field, symbols, file, keys) == symbol_class(
            is_field,
            symbols[i],
            file,
            keys,
        ),
        i == symbols.len() ==> word_class(is_field, symbols, file, keys) is None,
    decreases symbols.len(),
{
    if i > 0 {
        let rest = symbols.drop_first();
        assert(symbol_class(is_field, symbols[0], file, keys) is None);
        assert forall|j: int| 0 <= j < i - 1 implies symbol_class(
            is_field,
            #[trigger] rest[j],
            file,
            keys,
        ) is None by {
            assert(rest[j] == symbols[j + 1]);
        }
        law_first_symbol_decides(is_field, rest, file, keys, i - 1);
    }
}

} // verus!
