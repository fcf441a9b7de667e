//! The symbols of a document, as plain values.

use std::collections::HashMap;
use vstd::prelude::*;
use vstd::utf8::{encode_utf8, is_char_boundary};

use crate::token::{Position, Range};

verus! {

/// Where a symbol of the sources is declared.
#[derive(Debug)]
pub struct RuntimeSymbol {
    /// The encoded bytes of the path of the declaring file.
    pub file_path: Vec<u8>,
    /// The text of the declaration in that file.
    pub range: Range,
    /// The byte offset in the document at which the declaration starts, for a
    /// symbol that the document itself declares.
    pub declared_at: Option<usize>,
    /// The byte offset in the document of the directive that brings the
    /// declaring file in, if there is one.
    pub included_at: Option<usize>,
}

/// Whether a symbol comes from the sources or is always there.
#[derive(Debug)]
pub enum SymbolMode {
    Runtime(RuntimeSymbol),
    Other,
}

/// A label inside of a symbol: a parameter, a member, a method or a value. It
/// has a range where the sources declare it.
#[derive(Debug)]
pub struct Declaration {
    pub label: String,
    pub range: Option<Range>,
}

/// One overload of a function.
#[derive(Debug)]
pub struct Signature {
    pub parameters: Vec<Declaration>,
}

/// What a look-up of the type that a parameter belongs to found.
#[derive(Clone, Copy, Debug, PartialEq, Eq, Structural)]
pub enum ContextType {
    Missing,
    Enum,
    Other,
}

/// What a symbol stands for.
#[derive(Debug)]
pub enum SymbolData {
    Types,
    Struct { members: Vec<Declaration>, methods: Vec<Declaration> },
    Enum { values: Vec<Declaration> },
    Constants,
    Variables,
    Parameter { context: ContextType },
    CallExpression,
    Functions { signatures: Vec<Signature> },
    Method,
    Keyword,
    Macro,
    Include,
}

/// A symbol that a document can name.
#[derive(Debug)]
pub struct Symbol {
    pub label: String,
    pub mode: SymbolMode,
    pub data: SymbolData,
}

/// The symbols that a document can name, by kind.
#[derive(Debug)]
pub struct SymbolList {
    pub macros: Vec<Symbol>,
    pub types: Vec<Symbol>,
    pub functions: Vec<Symbol>,
    pub variables: Vec<Symbol>,
}

/// A word of the syntax tree, with the symbols that its name resolves to.
#[derive(Debug)]
pub struct Word {
    pub start: Position,
    /// The word is a field of the expression before it.
    pub is_field: bool,
    pub symbols: Vec<Symbol>,
}

/// An open document.
#[derive(Debug)]
pub struct Document {
    /// The encoded bytes of the path of the document.
    pub file_path: Vec<u8>,
    pub content: String,
    /// The position of each byte offset in the content that has one.
    pub positions: Vec<Option<Position>>,
    pub symbols: SymbolList,
    /// The words of the syntax tree, by the byte offset at which they were
    /// looked up.
    pub words: HashMap<usize, Word>,
}

/// The range of a symbol that `file` declares.
pub open spec fn range_in(symbol: Symbol, file: Seq<u8>) -> Option<Range> {
    match symbol.mode {
        SymbolMode::Runtime(runtime) => if runtime.file_path@ == file {
            Some(runtime.range)
        } else {
            None
        },
        SymbolMode::Other => None,
    }
}

/// The byte offset in the document from which a symbol can be named: its
/// declaration, where the document declares it; else the directive that brings
/// its file in; else the beginning. It is missing where the declaration has no
/// offset.
pub open spec fn scope_start(symbol: Symbol, file: Seq<u8>) -> Option<usize> {
    match symbol.mode {
        SymbolMode::Runtime(runtime) => if runtime.file_path@ == file {
            runtime.declared_at
        } else {
            match runtime.included_at {
                Some(offset) => Some(offset),
                None => Some(0),
            }
        },
        SymbolMode::Other => Some(0),
    }
}

/// A symbol has a scope that starts between two characters of `content`.
pub open spec fn has_scope(symbol: Symbol, file: Seq<u8>, content: Seq<char>) -> bool {
    scope_start(symbol, file) matches Some(start) && is_char_boundary(
        encode_utf8(content),
        start as int,
    )
}

/// The position of a byte offset in the content.
pub open spec fn position_of(positions: Seq<Option<Position>>, offset: int) -> Option<Position> {
    if 0 <= offset < positions.len() {
        positions[offset]
    } else {
        None
    }
}

/// Compares the paths of two files.
pub fn same_path(a: &Vec<u8>, b: &Vec<u8>) -> (result: bool)
    ensures
        result == (a@ == b@),
{
    if a.len() != b.len() {
        return false;
    }
    for i in 0..a.len()
        invariant
            a.len() == b.len(),
            forall|k: int| 0 <= k < i ==> a[k] == b[k],
    {
        if a[i] != b[i] {
            assert(a@[i as int] != b@[i as int]);
            return false;
        }
    }
    assert(a@ =~= b@);
    true
}

impl SymbolMode {
    /// The declaration of a symbol of the sources.
    pub fn map_runtime(&self) -> (result: Option<&RuntimeSymbol>)
        ensures
            match *self {
                SymbolMode::Runtime(runtime) => result == Some(&runtime),
                SymbolMode::Other => result is None,
            },
    {
        match self {
            SymbolMode::Runtime(runtime) => Some(runtime),
            SymbolMode::Other => None,
        }
    }
}

impl Symbol {
    /// The range of a symbol that `file` declares.
    pub fn range_in_file(&self, file: &Vec<u8>) -> (result: Option<Range>)
        ensures
            result == range_in(*self, file@),
    {
        match self.mode.map_runtime() {
            Some(runtime) => if same_path(&runtime.file_path, file) {
                Some(runtime.range)
            } else {
                None
            },
            None => None,
        }
    }

    /// The byte offset from which a symbol can be named.
    pub fn scope_start(&self, file: &Vec<u8>) -> (result: Option<usize>)
        ensures
            result == scope_start(*self, file@),
    {
        match &self.mode {
            SymbolMode::Runtime(runtime) => if same_path(&runtime.file_path, file) {
                runtime.declared_at
            } else {
                match runtime.included_at {
                    Some(offset) => Some(offset),
                    None => Some(0),
                }
            },
            SymbolMode::Other => Some(0),
        }
    }

    /// Tells whether the scope of a symbol starts between two characters.
    fn check_scope(&self, file: &Vec<u8>, content: &String) -> (result: bool)
        ensures
            result == has_scope(*self, file@, content@),
    {
        match self.scope_start(file) {
            Some(start) => content.as_str().is_char_boundary(start),
            None => false,
        }
    }
}

impl Document {
    /// Each macro of the document has a scope.
    pub open spec fn valid_macros(self) -> bool {
        forall|i: int|
            0 <= i < self.symbols.macros.len() ==> has_scope(
                #[trigger] self.symbols.macros[i],
                self.file_path@,
                self.content@,
            )
    }

    /// Each enum of the document has a scope.
    pub open spec fn valid_enums(self) -> bool {
        forall|i: int|
            0 <= i < self.symbols.types.len() && (#[trigger] self.symbols.types[i]).data is Enum
                ==> has_scope(self.symbols.types[i], self.file_path@, self.content@)
    }

    /// Each macro and each enum of the document has a scope.
    pub open spec fn valid(self) -> bool {
        self.valid_macros() && self.valid_enums()
    }

    /// Tells whether each macro has a scope, which the search for its occurrences
    /// asks for.
    pub fn has_valid_macros(&self) -> (result: bool)
        ensures
            result == self.valid_macros(),
    {
        for i in 0..self.symbols.macros.len()
            invariant
                forall|k: int|
                    0 <= k < i ==> has_scope(
                        #[trigger] self.symbols.macros[k],
                        self.file_path@,
                        self.content@,
                    ),
        {
            if !self.symbols.macros[i].check_scope(&self.file_path, &self.content) {
                return false;
            }
        }
        true
    }

    /// Tells whether each enum has a scope, which the search for its occurrences
    /// and those of its values asks for.
    pub fn has_valid_enums(&self) -> (result: bool)
        ensures
            result == self.valid_enums(),
    {
        for i in 0..self.symbols.types.len()
            invariant
                forall|k: int|
                    0 <= k < i && (#[trigger] self.symbols.types[k]).data is Enum ==> has_scope(
                        self.symbols.types[k],
                        self.file_path@,
                        self.content@,
                    ),
        {
            let symbol = &self.symbols.types[i];
            if let SymbolData::Enum { .. } = &symbol.data {
                if !symbol.check_scope(&self.file_path, &self.content) {
                    return false;
                }
            }
        }
        true
    }

    /// Tells whether each macro and each enum has a scope.
    pub fn is_valid(&self) -> (result: bool)
        ensures
            result == self.valid(),
    {
        self.has_valid_macros() && self.has_valid_enums()
    }

    /// The position of a byte offset in the content.
    pub fn position(&self, offset: usize) -> (result: Option<Position>)
        ensures
            result == position_of(self.positions@, offset as int),
    {
        if offset < self.positions.len() {
            self.positions[offset]
        } else {
            None
        }
    }
}

} // verus!
