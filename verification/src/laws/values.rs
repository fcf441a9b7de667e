//! Scopes, positions, lengths, patterns and the cache.

use vstd::prelude::*;
use vstd::utf8::{
    decode_utf8_encode_utf8, encode_utf8, encode_utf8_decode_utf8, encode_utf8_valid_utf8,
    is_char_boundary, valid_utf8_split,
};

use crate::cache::{holds, with_labels, with_recent};
use crate::declaration::{label_length, length_bits};
use crate::occurrence::{
    enum_labels, macro_labels, stopped_at, symbol_enum_labels, value_labels,
};
use crate::pattern::{
    escaped, escaped_character, is_short, text_from, word_pattern, PatternError,
};
use crate::server::document_labels;
use crate::symbol::{
    position_of, range_in, scope_start, Document, Symbol, SymbolData, SymbolMode,
};
use crate::token::Position;

verus! {

/// A symbol that the file declares has its range there, and its scope starts with its
/// declaration. One that another file declares has no range in the file, and its scope
/// starts with the directive that brings the other file in, or at the beginning where
/// there is none. One that is always there has no range, and a scope from the beginning.
pub proof fn law_scope(symbol: Symbol, file: Seq<u8>)
    ensures
        symbol.mode matches SymbolMode::Runtime(runtime) ==> {
            &&& runtime.file_path@ == file ==> range_in(symbol, file) == Some(runtime.range)
                && scope_start(symbol, file) == runtime.declared_at
            &&& runtime.file_path@ != file ==> range_in(symbol, file) is None && scope_start(
                symbol,
                file,
            ) is Some
            &&& runtime.file_path@ != file && runtime.included_at is Some ==> scope_start(
                symbol,
                file,
            ) == runtime.included_at
            &&& runtime.file_path@ != file && runtime.included_at is None ==> scope_start(
                symbol,
                file,
            ) == Some(0usize)
        },
        symbol.mode is Other ==> range_in(symbol, file) is None && scope_start(symbol, file)
            == Some(0usize),
{
}

/// A document is valid where the scope of each macro and of each enum starts between
/// two characters of its content. Nothing is asked of its other symbols.
pub proof fn law_valid(document: Document)
    ensures
        document.valid_macros() <==> forall|i: int|
            0 <= i < document.symbols.macros.len() ==> (scope_start(
                #[trigger] document.symbols.macros[i],
                document.file_path@,
            ) matches Some(start) && is_char_boundary(
                encode_utf8(document.content@),
                start as int,
            )),
        document.valid_enums() <==> forall|i: int|
            0 <= i < document.symbols.types.len() && (
            #[trigger] document.symbols.types[i]).data is Enum ==> (scope_start(
                document.symbols.types[i],
                document.file_path@,
            ) matches Some(start) && is_char_boundary(
                encode_utf8(document.content@),
                start as int,
            )),
        document.valid() <==> document.valid_macros() && document.valid_enums(),
{
}

/// A byte offset has the position that the document holds for it, and none outside of
/// the offsets for which it holds some.
pub proof fn law_position(positions: Seq<Option<Position>>, offset: int, position: Position)
    ensures
        position_of(positions, offset) == Some(position) <==> 0 <= offset < positions.len()
            && positions[offset] == Some(position),
{
}

/// A length that fits is kept, and lengths that differ by a multiple of what fits are
/// the same length to a token.
pub proof fn law_length(length: int)
    ensures
        0 <= length <= u32::MAX ==> length_bits(length) == length,
        length_bits(length + 0x1_0000_0000) == length_bits(length),
{
}

/// A token on a label is as long as the label has bytes, not as it has characters.
pub proof fn law_label_length(label: Seq<char>)
    ensures
        label_length(label) == encode_utf8(label).len() % 0x1_0000_0000,
{
}

/// The text from an offset between two characters on has the bytes from that offset on,
/// and the text from the beginning on is the whole text.
pub proof fn law_text_from(text: Seq<char>, start: int)
    requires
        is_char_boundary(encode_utf8(text), start),
    ensures
        encode_utf8(text_from(text, start)) == encode_utf8(text).skip(start),
        start == 0 ==> text_from(text, start) == text,
{
    let bytes = encode_utf8(text);
    encode_utf8_valid_utf8(text);
    valid_utf8_split(bytes, start);
    let rest = bytes.subrange(start, bytes.len() as int);
    decode_utf8_encode_utf8(rest);
    assert(bytes.skip(start) =~= rest);
    if start == 0 {
        assert(rest =~= bytes);
        encode_utf8_decode_utf8(text);
    }
}

/// Escaping a text keeps its characters, one after the other, and puts a backslash in
/// front of each that has a meaning in a pattern and of no other.
pub proof fn law_escaped(text: Seq<char>) -> (parts: Seq<Seq<char>>)
    ensures
        escaped(text) == parts.flatten(),
        parts.len() == text.len(),
        forall|i: int|
            0 <= i < text.len() ==> {
                &&& (#[trigger] parts[i]).last() == text[i]
                &&& parts[i].len() == if "\\.+*?()|[]{}^$#&-~"@.contains(text[i]) {
                    2int
                } else {
                    1int
                }
                &&& parts[i].len() == 2 ==> parts[i][0] == '\\'
            },
{
    reveal_strlit("\\.+*?()|[]{}^$#&-~");
    let meta = "\\.+*?()|[]{}^$#&-~"@;
    let parts = text.map_values(escaped_character());
    assert forall|i: int| 0 <= i < text.len() implies {
        &&& (#[trigger] parts[i]).last() == text[i]
        &&& parts[i].len() == if meta.contains(text[i]) {
            2int
        } else {
            1int
        }
        &&& parts[i].len() == 2 ==> parts[i][0] == '\\'
    } by {
        let c = text[i];
        assert(parts[i] == escaped_character()(c));
        if parts[i].len() == 2 {
            assert(meta[0] == c || meta[1] == c || meta[2] == c || meta[3] == c || meta[4] == c
                || meta[5] == c || meta[6] == c || meta[7] == c || meta[8] == c || meta[9] == c
                || meta[10] == c || meta[11] == c || meta[12] == c || meta[13] == c || meta[14] == c
                || meta[15] == c || meta[16] == c || meta[17] == c);
        } else if meta.contains(c) {
            let n = meta.index_of(c);
            assert(meta.len() == 18);
            assert(meta[n] == c);
        }
    }
    parts
}

/// The pattern of a label is the escaped label in a group, between two word boundaries.
pub proof fn law_word_pattern(label: Seq<char>)
    ensures
        ({
            let pattern = word_pattern(label);
            let n = escaped(label).len() as int;
            &&& pattern.len() == n + 6
            &&& pattern[0] == '\\' && pattern[1] == 'b' && pattern[2] == '('
            &&& pattern.subrange(3, n + 3) == escaped(label)
            &&& pattern[n + 3] == ')' && pattern[n + 4] == '\\' && pattern[n + 5] == 'b'
        }),
{
    reveal_strlit("\\b(");
    reveal_strlit(")\\b");
    let n = escaped(label).len() as int;
    assert(word_pattern(label).subrange(3, n + 3) =~= escaped(label));
}

/// A label of the cache that is used comes to the front with its new pattern, and the
/// others keep their order: none of them is lost.
pub proof fn law_used_again(
    entries: Seq<(Seq<char>, Seq<char>)>,
    capacity: nat,
    label: Seq<char>,
    source: Seq<char>,
    i: int,
)
    requires
        0 <= i < entries.len(),
        entries[i].0 == label,
        forall|j: int| 0 <= j < entries.len() && (#[trigger] entries[j]).0 == label ==> j == i,
    ensures
        ({
            let after = with_recent(entries, capacity, label, source);
            &&& after.len() == entries.len()
            &&& after[0] == (label, source)
            &&& forall|j: int| 0 <= j < i ==> #[trigger] entries[j] == after[j + 1]
            &&& forall|j: int| i < j < entries.len() ==> #[trigger] entries[j] == after[j]
        }),
{
    assert(holds(entries, label));
}

/// A label that is new to the cache comes to the front, and the others keep their
/// order. Where the cache was full, the last of them is lost, and else none.
pub proof fn law_used_first(
    entries: Seq<(Seq<char>, Seq<char>)>,
    capacity: nat,
    label: Seq<char>,
    source: Seq<char>,
)
    requires
        0 < capacity,
        entries.len() <= capacity,
        forall|j: int| 0 <= j < entries.len() ==> (#[trigger] entries[j]).0 != label,
    ensures
        ({
            let after = with_recent(entries, capacity, label, source);
            &&& after.len() == if entries.len() < capacity {
                entries.len() + 1
            } else {
                capacity
            }
            &&& after[0] == (label, source)
            &&& forall|j: int| 0 < j < after.len() ==> #[trigger] after[j] == entries[j - 1]
        }),
{
    assert(!holds(entries, label));
}

/// Looking no label up leaves the cache as it is, and looking up one more uses it, with
/// the pattern that matches it as a word, after the others.
pub proof fn law_looked_up_in_order(
    entries: Seq<(Seq<char>, Seq<char>)>,
    capacity: nat,
    labels: Seq<Seq<char>>,
    label: Seq<char>,
)
    ensures
        with_labels(entries, capacity, Seq::empty()) == entries,
        with_labels(entries, capacity, labels.push(label)) == with_recent(
            with_labels(entries, capacity, labels),
            capacity,
            label,
            word_pattern(label),
        ),
{
    assert(labels.push(label).drop_last() =~= labels);
}

/// A label is short where it has up to 327600 bytes, whatever its characters are.
pub proof fn law_short(label: Seq<char>)
    ensures
        is_short(label) <==> encode_utf8(label).len() <= 327600,
{
}

/// A search ends early only at a label of more than 327600 bytes that the cache does not
/// hold. The labels before it were looked up, and the error has its pattern.
pub proof fn law_stopped(
    before: Seq<(Seq<char>, Seq<char>)>,
    capacity: nat,
    labels: Seq<Seq<char>>,
    after: Seq<(Seq<char>, Seq<char>)>,
    error: PatternError,
) -> (n: int)
    requires
        stopped_at(before, capacity, labels, after, error),
    ensures
        0 <= n < labels.len(),
        encode_utf8(labels[n]).len() > 327600,
        forall|j: int| 0 <= j < after.len() ==> (#[trigger] after[j]).0 != labels[n],
        after == with_labels(before, capacity, labels.take(n)),
        error.pattern@ == word_pattern(labels[n]),
{
    let n = choose|n: int|
        0 <= n < labels.len() && after == with_labels(before, capacity, #[trigger] labels.take(n))
            && !holds(after, labels[n]) && !is_short(labels[n]) && error.pattern@ == word_pattern(
            labels[n],
        );
    assert forall|j: int| 0 <= j < after.len() implies (#[trigger] after[j]).0 != labels[n] by {
        if after[j].0 == labels[n] {
            assert(holds(after, labels[n]));
        }
    }
    n
}

/// A request looks up the labels of all macros and then, type by type, those of the
/// enums: of each its own label and then the labels of its values.
pub proof fn law_labels_looked_up(document: Document) -> (parts: Seq<Seq<Seq<char>>>)
    ensures
        ({
            let labels = document_labels(document);
            let macros = document.symbols.macros@;
            let types = document.symbols.types@;
            &&& macro_labels(document).len() == macros.len()
            &&& forall|i: int|
                0 <= i < macros.len() ==> #[trigger] macro_labels(document)[i] == macros[i].label@
            &&& labels.take(macros.len() as int) == macro_labels(document)
            &&& labels.skip(macros.len() as int) == enum_labels(document)
            &&& enum_labels(document) == parts.flatten()
            &&& parts.len() == types.len()
            &&& forall|i: int|
                0 <= i < types.len() && types[i].data !is Enum ==> (#[trigger] parts[i]).len() == 0
            &&& forall|i: int|
                0 <= i < types.len() ==> (types[i].data matches SymbolData::Enum { values } ==> {
                    &&& (#[trigger] parts[i]).len() == values.len() + 1
                    &&& parts[i][0] == types[i].label@
                    &&& forall|j: int|
                        0 <= j < values.len() ==> parts[i][j + 1] == (
                        #[trigger] values[j]).label@
                })
        }),
{
    let labels = document_labels(document);
    let macros = document.symbols.macros@;
    let types = document.symbols.types@;
    let parts = types.map_values(symbol_enum_labels());
    assert(labels.take(macros.len() as int) =~= macro_labels(document));
    assert(labels.skip(macros.len() as int) =~= enum_labels(document));
    assert forall|i: int| 0 <= i < types.len() implies (
    types[i].data matches SymbolData::Enum { values } ==> {
        &&& (#[trigger] parts[i]).len() == values.len() + 1
        &&& parts[i][0] == types[i].label@
        &&& forall|j: int|
            0 <= j < values.len() ==> parts[i][j + 1] == (#[trigger] values[j]).label@
    }) by {
        if let SymbolData::Enum { values } = types[i].data {
            assert(parts[i] == seq![types[i].label@] + value_labels(values@));
            assert forall|j: int| 0 <= j < values.len() implies parts[i][j + 1] == (
            #[trigger] values[j]).label@ by {
                assert(parts[i][j + 1] == value_labels(values@)[j]);
            }
        }
    }
    parts
}

} // verus!
