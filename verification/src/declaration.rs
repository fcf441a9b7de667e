//! Tokens of the declarations of a document, and the class of a name.

use vstd::prelude::*;
use vstd::utf8::encode_utf8;

use crate::server::ServerLanguage;
use crate::symbol::{
    range_in, ContextType, Declaration, Document, Signature, Symbol, SymbolData,
};
use crate::token::{
    plain_token, AbsoluteSemanticToken, Position, Range, TOKEN_TYPE_ENUM, TOKEN_TYPE_ENUM_MEMBER,
    TOKEN_TYPE_FUNCTION, TOKEN_TYPE_MACRO, TOKEN_TYPE_PARAMETER, TOKEN_TYPE_PROPERTY,
    TOKEN_TYPE_TYPE, TOKEN_TYPE_VARIABLE,
};

verus! {

/// A length as tokens hold it: its low 32 bits.
pub open spec fn length_bits(length: int) -> u32 {
    (length % 0x1_0000_0000) as u32
}

/// The length of a token on a label: the bytes of the label.
pub open spec fn label_length(label: Seq<char>) -> u32 {
    length_bits(encode_utf8(label).len() as int)
}

/// The token of a label that is declared in a range.
pub open spec fn range_token(
    range: Range,
    label: Seq<char>,
    token_type: u32,
) -> AbsoluteSemanticToken {
    plain_token(range.start.line, range.start.pos, label_length(label), token_type)
}

/// A label and the range in which it is declared, by which a variable is told
/// to be a parameter.
#[derive(Debug)]
pub struct SymbolDeclarationKey {
    pub label: String,
    pub start_line: u32,
    pub start_pos: u32,
    pub end_line: u32,
    pub end_pos: u32,
}

impl View for SymbolDeclarationKey {
    type V = (Seq<char>, Range);

    open spec fn view(&self) -> (Seq<char>, Range) {
        (
            self.label@,
            Range {
                start: Position { line: self.start_line, pos: self.start_pos },
                end: Position { line: self.end_line, pos: self.end_pos },
            },
        )
    }
}

impl SymbolDeclarationKey {
    /// Tells whether two keys hold the same label and the same range.
    pub fn same_key(&self, other: &Self) -> (result: bool)
        ensures
            result == (self@ == other@),
    {
        self.start_line == other.start_line && self.start_pos == other.start_pos && self.end_line
            == other.end_line && self.end_pos == other.end_pos && self.label == other.label
    }
}

/// A set of declaration keys.
#[derive(Debug)]
pub struct DeclarationKeys {
    keys: Vec<SymbolDeclarationKey>,
}

impl View for DeclarationKeys {
    type V = Set<(Seq<char>, Range)>;

    closed spec fn view(&self) -> Set<(Seq<char>, Range)> {
        Set::new(|key: (Seq<char>, Range)| holds_key(self.keys@, key))
    }
}

/// The list holds the key.
spec fn holds_key(keys: Seq<SymbolDeclarationKey>, key: (Seq<char>, Range)) -> bool {
    exists|i: int| 0 <= i < keys.len() && #[trigger] keys[i]@ == key
}

impl DeclarationKeys {
    /// No key is in the list twice.
    #[verifier::type_invariant]
    spec fn distinct(self) -> bool {
        forall|i: int, j: int|
            0 <= i < j < self.keys.len() ==> #[trigger] self.keys[i]@ != #[trigger] self.keys[j]@
    }

    /// The set without keys.
    pub fn new() -> (keys: Self)
        ensures
            keys@ == Set::<(Seq<char>, Range)>::empty(),
    {
        let keys = Self { keys: Vec::new() };
        assert(keys@ =~= Set::<(Seq<char>, Range)>::empty());
        keys
    }

    /// Tells whether the set has a key.
    pub fn contains(&self, key: &SymbolDeclarationKey) -> (result: bool)
        ensures
            result == self@.contains(key@),
    {
        for i in 0..self.keys.len()
            invariant
                forall|k: int| 0 <= k < i ==> #[trigger] self.keys[k]@ != key@,
        {
            if self.keys[i].same_key(key) {
                assert(holds_key(self.keys@, key@)) by {
                    assert(self.keys@[i as int]@ == key@);
                }
                return true;
            }
        }
        false
    }

    /// Adds a key to the set.
    pub fn insert(&mut self, key: SymbolDeclarationKey)
        ensures
            final(self)@ == old(self)@.insert(key@),
    {
        proof {
            use_type_invariant(&*self);
        }
        if !self.contains(&key) {
            let ghost before = self.keys@;
            let mut keys: Vec<SymbolDeclarationKey> = Vec::new();
            std::mem::swap(&mut keys, &mut self.keys);
            keys.push(key);
            self.keys = keys;
            assert forall|other: (Seq<char>, Range)|
                self@.contains(other) == old(self)@.insert(key@).contains(other) by {
                if holds_key(before, other) {
                    let i = choose|i: int| 0 <= i < before.len() && #[trigger] before[i]@ == other;
                    assert(self.keys@[i]@ == other);
                }
                assert(self.keys@[before.len() as int]@ == key@);
            }
        }
        assert(self@ =~= old(self)@.insert(key@));
    }
}

/// The key of a label that has a range.
pub open spec fn declared_key() -> spec_fn(Declaration) -> Option<(Seq<char>, Range)> {
    |declaration: Declaration|
        match declaration.range {
            Some(range) => Some((declaration.label@, range)),
            None => None,
        }
}

/// The keys of the parameters of a signature.
pub open spec fn signature_keys() -> spec_fn(Signature) -> Seq<(Seq<char>, Range)> {
    |signature: Signature| signature.parameters@.filter_map(declared_key())
}

/// The keys of the parameters of a function that `file` declares.
pub open spec fn function_keys(file: Seq<u8>) -> spec_fn(Symbol) -> Seq<(Seq<char>, Range)> {
    |symbol: Symbol|
        match symbol.data {
            SymbolData::Functions { signatures } => if range_in(symbol, file) is Some {
                signatures@.flat_map(signature_keys())
            } else {
                Seq::empty()
            },
            _ => Seq::empty(),
        }
}

/// The keys of the parameters of all functions that `file` declares.
pub open spec fn parameter_keys(functions: Seq<Symbol>, file: Seq<u8>) -> Set<(Seq<char>, Range)> {
    functions.flat_map(function_keys(file)).to_set()
}

/// `file` declares the symbol where it declares a parameter of that label.
pub open spec fn is_parameter(
    symbol: Symbol,
    file: Seq<u8>,
    keys: Set<(Seq<char>, Range)>,
) -> bool {
    range_in(symbol, file) matches Some(range) && keys.contains((symbol.label@, range))
}

/// The token of a variable that `file` declares: a parameter or a variable.
pub open spec fn variable_token(file: Seq<u8>, keys: Set<(Seq<char>, Range)>) -> spec_fn(
    Symbol,
) -> Option<AbsoluteSemanticToken> {
    |symbol: Symbol|
        match range_in(symbol, file) {
            Some(range) => Some(
                range_token(
                    range,
                    symbol.label@,
                    if is_parameter(symbol, file, keys) {
                        TOKEN_TYPE_PARAMETER
                    } else {
                        TOKEN_TYPE_VARIABLE
                    },
                ),
            ),
            None => None,
        }
}

/// The token of a function that `file` declares.
pub open spec fn function_token(file: Seq<u8>) -> spec_fn(Symbol) -> Option<
    AbsoluteSemanticToken,
> {
    |symbol: Symbol|
        match range_in(symbol, file) {
            Some(range) => Some(range_token(range, symbol.label@, TOKEN_TYPE_FUNCTION)),
            None => None,
        }
}

/// The token of a label inside of a type, where it has a range.
pub open spec fn inner_token(token_type: u32) -> spec_fn(Declaration) -> Option<
    AbsoluteSemanticToken,
> {
    |declaration: Declaration|
        match declaration.range {
            Some(range) => Some(range_token(range, declaration.label@, token_type)),
            None => None,
        }
}

/// The tokens of the labels inside of a type: the members and then the methods
/// of a struct, the values of an enum.
pub open spec fn inner_tokens(data: SymbolData) -> Seq<AbsoluteSemanticToken> {
    match data {
        SymbolData::Struct { members, methods } => members@.filter_map(
            inner_token(TOKEN_TYPE_PROPERTY),
        ) + methods@.filter_map(inner_token(TOKEN_TYPE_FUNCTION)),
        SymbolData::Enum { values } => values@.filter_map(inner_token(TOKEN_TYPE_ENUM_MEMBER)),
        _ => Seq::empty(),
    }
}

/// The tokens of a type that `file` declares: its own, and those inside of it.
pub open spec fn type_tokens(file: Seq<u8>) -> spec_fn(Symbol) -> Seq<AbsoluteSemanticToken> {
    |symbol: Symbol|
        match range_in(symbol, file) {
            Some(range) => seq![
                range_token(
                    range,
                    symbol.label@,
                    if symbol.data is Enum {
                        TOKEN_TYPE_ENUM
                    } else {
                        TOKEN_TYPE_TYPE
                    },
                ),
            ] + inner_tokens(symbol.data),
            None => Seq::empty(),
        }
}

/// The tokens of all that a document declares: its variables, its functions,
/// and its types with what is inside of them.
pub open spec fn declaration_tokens(document: Document) -> Seq<AbsoluteSemanticToken> {
    let file = document.file_path@;
    let keys = parameter_keys(document.symbols.functions@, file);
    document.symbols.variables@.filter_map(variable_token(file, keys))
        + document.symbols.functions@.filter_map(function_token(file))
        + document.symbols.types@.flat_map(type_tokens(file))
}

/// The class that a resolved symbol gives to a word, if it gives one.
pub open spec fn symbol_class(
    is_field: bool,
    symbol: Symbol,
    file: Seq<u8>,
    keys: Set<(Seq<char>, Range)>,
) -> Option<u32> {
    match symbol.data {
        SymbolData::Macro => Some(TOKEN_TYPE_MACRO),
        SymbolData::CallExpression => Some(TOKEN_TYPE_FUNCTION),
        SymbolData::Functions { .. } => Some(TOKEN_TYPE_FUNCTION),
        SymbolData::Method => Some(TOKEN_TYPE_FUNCTION),
        SymbolData::Enum { .. } => Some(TOKEN_TYPE_ENUM),
        SymbolData::Types => Some(TOKEN_TYPE_TYPE),
        SymbolData::Struct { .. } => Some(TOKEN_TYPE_TYPE),
        SymbolData::Parameter { context } => if !is_field {
            None
        } else if context == ContextType::Enum {
            Some(TOKEN_TYPE_ENUM_MEMBER)
        } else {
            Some(TOKEN_TYPE_PROPERTY)
        },
        SymbolData::Variables => if is_parameter(symbol, file, keys) {
            Some(TOKEN_TYPE_PARAMETER)
        } else {
            Some(TOKEN_TYPE_VARIABLE)
        },
        SymbolData::Constants => Some(TOKEN_TYPE_VARIABLE),
        SymbolData::Include => None,
        SymbolData::Keyword => None,
    }
}

/// The class of a word: what the first of its symbols says that gives one.
pub open spec fn word_class(
    is_field: bool,
    symbols: Seq<Symbol>,
    file: Seq<u8>,
    keys: Set<(Seq<char>, Range)>,
) -> Option<u32>
    decreases symbols.len(),
{
    if symbols.len() == 0 {
        None
    } else {
        match symbol_class(is_field, symbols[0], file, keys) {
            Some(token_type) => Some(token_type),
            None => word_class(is_field, symbols.drop_first(), file, keys),
        }
    }
}

/// The number of bytes of a label.
pub(crate) fn byte_length(label: &String) -> (length: usize)
    ensures
        length == encode_utf8(label@).len(),
{
    label.as_str().as_bytes().len()
}

/// The low 32 bits of a length.
pub(crate) fn low_bits(length: usize) -> (bits: u32)
    ensures
        bits == length_bits(length as int),
{
    let wide: u64 = length as u64;
    assert(wide as u32 == wide % 0x1_0000_0000) by (bit_vector);
    wide as u32
}

/// Appends the tokens of the labels inside of a type.
fn push_inner_tokens(
    tokens: &mut Vec<AbsoluteSemanticToken>,
    declarations: &Vec<Declaration>,
    token_type: u32,
)
    ensures
        final(tokens)@ == old(tokens)@ + declarations@.filter_map(inner_token(token_type)),
{
    for i in 0..declarations.len()
        invariant
            tokens@ == old(tokens)@ + declarations@.take(i as int).filter_map(
                inner_token(token_type),
            ),
    {
        proof {
            declarations@.lemma_filter_map_take_succ(inner_token(token_type), i as int);
        }
        let declaration = &declarations[i];
        if let Some(range) = &declaration.range {
            ServerLanguage::push_range_token(
                tokens,
                range,
                byte_length(&declaration.label),
                token_type,
            );
        }
    }
    assert(declarations@.take(declarations.len() as int) =~= declarations@);
}

/// Adds the keys of the parameters of a signature.
fn insert_signature_keys(keys: &mut DeclarationKeys, signature: &Signature)
    ensures
        final(keys)@ == old(keys)@.union(signature_keys()(*signature).to_set()),
{
    let parameters = &signature.parameters;
    assert(parameters@.take(0).filter_map(declared_key()) =~= Seq::empty());
    for i in 0..parameters.len()
        invariant
            parameters == signature.parameters,
            keys@ =~= old(keys)@.union(
                parameters@.take(i as int).filter_map(declared_key()).to_set(),
            ),
    {
        let ghost done = parameters@.take(i as int).filter_map(declared_key());
        proof {
            parameters@.lemma_filter_map_take_succ(declared_key(), i as int);
        }
        let parameter = &parameters[i];
        if let Some(range) = &parameter.range {
            keys.insert(ServerLanguage::declaration_key(parameter.label.as_str(), range));
            proof {
                Seq::lemma_to_set_insert_commutes(done, (parameter.label@, *range));
            }
        }
    }
    assert(parameters@.take(parameters.len() as int) =~= parameters@);
}

/// The set of a concatenation is the union of the sets.
proof fn lemma_concat_to_set<A>(a: Seq<A>, b: Seq<A>)
    ensures
        (a + b).to_set() == a.to_set().union(b.to_set()),
{
    assert forall|x: A| (a + b).contains(x) == (a.contains(x) || b.contains(x)) by {
        if a.contains(x) {
            let i = a.index_of(x);
            assert((a + b)[i] == x);
        }
        if b.contains(x) {
            let i = b.index_of(x);
            assert((a + b)[a.len() + i] == x);
        }
    }
    assert((a + b).to_set() =~= a.to_set().union(b.to_set()));
}

impl ServerLanguage {
    /// Appends the token of a label of `label_len` bytes that is declared in a
    /// range.
    pub fn push_range_token(
        tokens: &mut Vec<AbsoluteSemanticToken>,
        range: &Range,
        label_len: usize,
        token_type: u32,
    )
        ensures
            final(tokens)@ == old(tokens)@.push(
                plain_token(
                    range.start.line,
                    range.start.pos,
                    length_bits(label_len as int),
                    token_type,
                ),
            ),
    {
        tokens.push(
            AbsoluteSemanticToken::new(
                range.start.line,
                range.start.pos,
                low_bits(label_len),
                token_type,
            ),
        );
    }

    /// The key of a label that is declared in a range.
    pub fn declaration_key(label: &str, range: &Range) -> (key: SymbolDeclarationKey)
        ensures
            key@ == (label@, *range),
    {
        SymbolDeclarationKey {
            label: label.to_owned(),
            start_line: range.start.line,
            start_pos: range.start.pos,
            end_line: range.end.line,
            end_pos: range.end.pos,
        }
    }

    /// The keys of the parameters of all functions that the current file
    /// declares.
    pub fn collect_parameter_declaration_keys(
        functions: &Vec<Symbol>,
        current_file: &Vec<u8>,
    ) -> (keys: DeclarationKeys)
        ensures
            keys@ == parameter_keys(functions@, current_file@),
    {
        let mut keys = DeclarationKeys::new();
        let ghost of_function = function_keys(current_file@);
        assert(functions@.take(0).flat_map(of_function) =~= Seq::empty());
        for i in 0..functions.len()
            invariant
                of_function == function_keys(current_file@),
                keys@ =~= functions@.take(i as int).flat_map(of_function).to_set(),
        {
            let ghost done = functions@.take(i as int).flat_map(of_function);
            let symbol = &functions[i];
            proof {
                functions@.lemma_flat_map_take_append(of_function, i as int);
                lemma_concat_to_set(done, of_function(*symbol));
            }
            if symbol.range_in_file(current_file).is_some() {
                if let SymbolData::Functions { signatures } = &symbol.data {
                    assert(signatures@.take(0).flat_map(signature_keys()) =~= Seq::empty());
                    for j in 0..signatures.len()
                        invariant
                            keys@ =~= done.to_set().union(
                                signatures@.take(j as int).flat_map(signature_keys()).to_set(),
                            ),
                    {
                        proof {
                            signatures@.lemma_flat_map_take_append(signature_keys(), j as int);
                            lemma_concat_to_set(
                                signatures@.take(j as int).flat_map(signature_keys()),
                                signature_keys()(signatures[j as int]),
                            );
                        }
                        insert_signature_keys(&mut keys, &signatures[j]);
                    }
                    assert(signatures@.take(signatures.len() as int) =~= signatures@);
                }
            }
        }
        assert(functions@.take(functions.len() as int) =~= functions@);
        keys
    }

    /// Tells whether the current file declares a symbol where it declares a
    /// parameter.
    pub fn is_parameter_symbol(
        symbol: &Symbol,
        current_file: &Vec<u8>,
        parameter_keys: &DeclarationKeys,
    ) -> (result: bool)
        ensures
            result == is_parameter(*symbol, current_file@, parameter_keys@),
    {
        match symbol.range_in_file(current_file) {
            Some(range) => parameter_keys.contains(
                &Self::declaration_key(symbol.label.as_str(), &range),
            ),
            None => false,
        }
    }

    /// The tokens of all that a document declares.
    pub fn find_symbol_declaration_tokens(document: &Document) -> (tokens: Vec<
        AbsoluteSemanticToken,
    >)
        ensures
            tokens@ == declaration_tokens(*document),
    {
        let file_path = &document.file_path;
        let ghost file = file_path@;
        let variables = &document.symbols.variables;
        let functions = &document.symbols.functions;
        let types = &document.symbols.types;
        let parameter_keys = Self::collect_parameter_declaration_keys(functions, file_path);
        let ghost keys = parameter_keys@;
        let mut tokens: Vec<AbsoluteSemanticToken> = Vec::new();
        for i in 0..variables.len()
            invariant
                file == file_path@,
                keys == parameter_keys@,
                tokens@ == variables@.take(i as int).filter_map(variable_token(file, keys)),
        {
            proof {
                variables@.lemma_filter_map_take_succ(variable_token(file, keys), i as int);
            }
            let symbol = &variables[i];
            if let Some(range) = symbol.range_in_file(file_path) {
                let token_type = if Self::is_parameter_symbol(symbol, file_path, &parameter_keys) {
                    TOKEN_TYPE_PARAMETER
                } else {
                    TOKEN_TYPE_VARIABLE
                };
                Self::push_range_token(
                    &mut tokens,
                    &range,
                    byte_length(&symbol.label),
                    token_type,
                );
            }
        }
        assert(variables@.take(variables.len() as int) =~= variables@);
        let ghost of_variables = tokens@;
        for i in 0..functions.len()
            invariant
                file == file_path@,
                tokens@ == of_variables + functions@.take(i as int).filter_map(
                    function_token(file),
                ),
        {
            proof {
                functions@.lemma_filter_map_take_succ(function_token(file), i as int);
            }
            let symbol = &functions[i];
            if let Some(range) = symbol.range_in_file(file_path) {
                Self::push_range_token(
                    &mut tokens,
                    &range,
                    byte_length(&symbol.label),
                    TOKEN_TYPE_FUNCTION,
                );
            }
        }
        assert(functions@.take(functions.len() as int) =~= functions@);
        let ghost of_functions = tokens@;
        assert(types@.take(0).flat_map(type_tokens(file)) =~= Seq::empty());
        for i in 0..types.len()
            invariant
                file == file_path@,
                tokens@ == of_functions + types@.take(i as int).flat_map(type_tokens(file)),
        {
            proof {
                types@.lemma_flat_map_take_append(type_tokens(file), i as int);
            }
            let ghost done = tokens@;
            let symbol = &types[i];
            if let Some(range) = symbol.range_in_file(file_path) {
                let token_type = match &symbol.data {
                    SymbolData::Enum { .. } => TOKEN_TYPE_ENUM,
                    _ => TOKEN_TYPE_TYPE,
                };
                Self::push_range_token(
                    &mut tokens,
                    &range,
                    byte_length(&symbol.label),
                    token_type,
                );
                match &symbol.data {
                    SymbolData::Struct { members, methods } => {
                        push_inner_tokens(&mut tokens, members, TOKEN_TYPE_PROPERTY);
                        push_inner_tokens(&mut tokens, methods, TOKEN_TYPE_FUNCTION);
                    },
                    SymbolData::Enum { values } => {
                        push_inner_tokens(&mut tokens, values, TOKEN_TYPE_ENUM_MEMBER);
                    },
                    _ => {},
                }
            }
            assert(tokens@ =~= done + type_tokens(file)(*symbol));
        }
        assert(types@.take(types.len() as int) =~= types@);
        tokens
    }

    /// The class of a word: what the first of its resolved symbols says that
    /// gives one.
    pub fn classify_word_symbol(
        is_field: bool,
        resolved_symbols: &Vec<Symbol>,
        current_file: &Vec<u8>,
        parameter_keys: &DeclarationKeys,
    ) -> (result: Option<u32>)
        ensures
            result == word_class(is_field, resolved_symbols@, current_file@, parameter_keys@),
    {
        assert(resolved_symbols@.skip(0) =~= resolved_symbols@);
        for i in 0..resolved_symbols.len()
            invariant
                word_class(is_field, resolved_symbols@, current_file@, parameter_keys@)
                    == word_class(
                    is_field,
                    resolved_symbols@.skip(i as int),
                    current_file@,
                    parameter_keys@,
                ),
        {
            let symbol = &resolved_symbols[i];
            assert(resolved_symbols@.skip(i as int)[0] == *symbol);
            assert(resolved_symbols@.skip(i as int).drop_first() =~= resolved_symbols@.skip(
                i + 1,
            ));
            match &symbol.data {
                SymbolData::Macro => return Some(TOKEN_TYPE_MACRO),
                SymbolData::CallExpression | SymbolData::Functions { .. } | SymbolData::Method => {
                    return Some(TOKEN_TYPE_FUNCTION);
                },
                SymbolData::Enum { .. } => return Some(TOKEN_TYPE_ENUM),
                SymbolData::Types | SymbolData::Struct { .. } => return Some(TOKEN_TYPE_TYPE),
                SymbolData::Parameter { context } => {
                    if is_field {
                        return match context {
                            ContextType::Enum => Some(TOKEN_TYPE_ENUM_MEMBER),
                            _ => Some(TOKEN_TYPE_PROPERTY),
                        };
                    }
                },
                SymbolData::Variables => {
                    if Self::is_parameter_symbol(symbol, current_file, parameter_keys) {
                        return Some(TOKEN_TYPE_PARAMETER);
                    }
                    return Some(TOKEN_TYPE_VARIABLE);
                },
                SymbolData::Constants => return Some(TOKEN_TYPE_VARIABLE),
                SymbolData::Include | SymbolData::Keyword => {},
            }
        }
        None
    }
}

} // verus!
