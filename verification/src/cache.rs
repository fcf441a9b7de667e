//! The cache of compiled expressions, and the calls into the `lru` crate.

use lru::LruCache;
use regex::Regex;
use vstd::prelude::*;

use crate::pattern::{regex_source, word_pattern, PatternError};

verus! {

/// The largest number of entries that a new cache can be asked to hold: the most
/// for which a table can be laid out where addresses have 32 bits.
pub const MAX_CAPACITY: usize = 0x700_0000;

/// Declares `lru::LruCache`, a bounded map that drops the entry that was used
/// longest ago.
#[verifier::external_type_specification]
#[verifier::external_body]
#[verifier::reject_recursive_types(K)]
#[verifier::reject_recursive_types(V)]
#[verifier::reject_recursive_types(S)]
pub struct ExLruCache<K, V, S>(lru::LruCache<K, V, S>);

/// Declares `lru::DefaultHasher`, the hasher of a cache that is given no other.
#[verifier::external_type_specification]
#[verifier::external_body]
pub struct ExDefaultHasher(lru::DefaultHasher);

/// The entries of a cache, from the most recently used one on: each label with
/// what the expression stored for it was compiled from.
pub uninterp spec fn cache_entries(cache: lru::LruCache<String, regex::Regex>) -> Seq<
    (Seq<char>, Seq<char>),
>;

/// The number of entries that a cache was made to hold.
pub uninterp spec fn cache_capacity(cache: lru::LruCache<String, regex::Regex>) -> nat;

/// An entry has the label.
pub open spec fn holds(entries: Seq<(Seq<char>, Seq<char>)>, label: Seq<char>) -> bool {
    exists|i: int| 0 <= i < entries.len() && (#[trigger] entries[i]).0 == label
}

/// The index of the entry that has the label.
pub open spec fn index_of(entries: Seq<(Seq<char>, Seq<char>)>, label: Seq<char>) -> int {
    choose|i: int| 0 <= i < entries.len() && (#[trigger] entries[i]).0 == label
}

/// The entries after `label` was used and `source` stored for it: its entry is
/// in front; where it is new and the cache is full, the last entry is gone.
pub open spec fn with_recent(
    entries: Seq<(Seq<char>, Seq<char>)>,
    capacity: nat,
    label: Seq<char>,
    source: Seq<char>,
) -> Seq<(Seq<char>, Seq<char>)> {
    let others = if holds(entries, label) {
        entries.remove(index_of(entries, label))
    } else if entries.len() == capacity {
        entries.drop_last()
    } else {
        entries
    };
    seq![(label, source)] + others
}

/// The entries after the labels were looked up one after the other.
pub open spec fn with_labels(
    entries: Seq<(Seq<char>, Seq<char>)>,
    capacity: nat,
    labels: Seq<Seq<char>>,
) -> Seq<(Seq<char>, Seq<char>)>
    decreases labels.len(),
{
    if labels.len() == 0 {
        entries
    } else {
        with_recent(
            with_labels(entries, capacity, labels.drop_last()),
            capacity,
            labels.last(),
            word_pattern(labels.last()),
        )
    }
}

/// A cache of label expressions: it is not over its capacity, no label occurs
/// twice, and each label has the expression that matches it as a word.
pub open spec fn is_label_cache(entries: Seq<(Seq<char>, Seq<char>)>, capacity: nat) -> bool {
    &&& 0 < capacity
    &&& entries.len() <= capacity
    &&& forall|i: int, j: int|
        0 <= i < j < entries.len() ==> (#[trigger] entries[i]).0 != (#[trigger] entries[j]).0
    &&& forall|i: int|
        0 <= i < entries.len() ==> (#[trigger] entries[i]).1 == word_pattern(entries[i].0)
}

/// Makes an empty cache with `LruCache::new`. That function panics where no table
/// of the size can be laid out in memory, so the capacity is bounded.
#[verifier::external_body]
pub(crate) fn new_cache(capacity: usize) -> (cache: LruCache<String, Regex>)
    requires
        0 < capacity <= MAX_CAPACITY,
    ensures
        cache_entries(cache) == Seq::<(Seq<char>, Seq<char>)>::empty(),
        cache_capacity(cache) == capacity,
{
    LruCache::new(std::num::NonZeroUsize::new(capacity).unwrap())
}

/// Reads the capacity of a cache with `LruCache::cap`.
#[verifier::external_body]
pub(crate) fn capacity_of(cache: &LruCache<String, Regex>) -> (capacity: usize)
    ensures
        capacity == cache_capacity(*cache),
{
    cache.cap().get()
}

/// Stores an expression with `LruCache::put`: the entry comes to the front, and
/// the expression that the label had before is handed back.
#[verifier::external_body]
pub(crate) fn put(
    cache: &mut LruCache<String, Regex>,
    label: String,
    regex: Regex,
) -> (replaced: Option<Regex>)
    ensures
        cache_capacity(*final(cache)) == cache_capacity(*old(cache)),
        cache_entries(*final(cache)) == with_recent(
            cache_entries(*old(cache)),
            cache_capacity(*old(cache)),
            label@,
            regex_source(regex),
        ),
        match replaced {
            Some(before) => holds(cache_entries(*old(cache)), label@) && regex_source(before)
                == cache_entries(*old(cache))[index_of(cache_entries(*old(cache)), label@)].1,
            None => !holds(cache_entries(*old(cache)), label@),
        },
{
    cache.put(label, regex)
}

/// Takes the least recently used entry out with `LruCache::pop_lru`.
#[verifier::external_body]
pub(crate) fn pop_lru(cache: &mut LruCache<String, Regex>) -> (entry: Option<(String, Regex)>)
    ensures
        cache_capacity(*final(cache)) == cache_capacity(*old(cache)),
        match entry {
            Some((label, regex)) => {
                &&& cache_entries(*old(cache)).len() > 0
                &&& cache_entries(*old(cache)).last() == (label@, regex_source(regex))
                &&& cache_entries(*final(cache)) == cache_entries(*old(cache)).drop_last()
            },
            None => {
                &&& cache_entries(*old(cache)).len() == 0
                &&& cache_entries(*final(cache)) == cache_entries(*old(cache))
            },
        },
{
    cache.pop_lru()
}

/// Looks a label up with `LruCache::try_get_or_insert`. Where the cache holds
/// it, its entry comes to the front. Where it does not, `make` is called: what it
/// makes is stored in front, and an error of it leaves the cache as it was.
#[verifier::external_body]
pub(crate) fn try_get_or_insert<'a, F: FnOnce() -> Result<Regex, PatternError>>(
    cache: &'a mut LruCache<String, Regex>,
    label: String,
    make: F,
) -> (result: Result<&'a Regex, PatternError>)
    requires
        make.requires(()),
    ensures
        cache_capacity(*final(cache)) == cache_capacity(*old(cache)),
        match result {
            Ok(regex) => {
                &&& cache_entries(*final(cache)) == with_recent(
                    cache_entries(*old(cache)),
                    cache_capacity(*old(cache)),
                    label@,
                    regex_source(*regex),
                )
                &&& if holds(cache_entries(*old(cache)), label@) {
                    regex_source(*regex) == cache_entries(*old(cache))[index_of(
                        cache_entries(*old(cache)),
                        label@,
                    )].1
                } else {
                    make.ensures((), Ok::<Regex, PatternError>(*regex))
                }
            },
            Err(error) => {
                &&& !holds(cache_entries(*old(cache)), label@)
                &&& make.ensures((), Err::<Regex, PatternError>(error))
                &&& cache_entries(*final(cache)) == cache_entries(*old(cache))
            },
        },
{
    cache.try_get_or_insert(label, make)
}

/// Looking a label up keeps a cache of label expressions one.
pub proof fn lemma_with_recent(
    entries: Seq<(Seq<char>, Seq<char>)>,
    capacity: nat,
    label: Seq<char>,
)
    requires
        is_label_cache(entries, capacity),
    ensures
        is_label_cache(with_recent(entries, capacity, label, word_pattern(label)), capacity),
{
    let after = with_recent(entries, capacity, label, word_pattern(label));
    if holds(entries, label) {
        let n = index_of(entries, label);
        assert forall|i: int| 0 < i < after.len() implies #[trigger] after[i] == (if i <= n {
            entries[i - 1]
        } else {
            entries[i]
        }) by {}
    } else {
        assert forall|i: int| 0 < i < after.len() implies #[trigger] after[i] == entries[i
            - 1] by {}
    }
}

/// Looking labels up keeps a cache of label expressions one.
pub proof fn lemma_with_labels(
    entries: Seq<(Seq<char>, Seq<char>)>,
    capacity: nat,
    labels: Seq<Seq<char>>,
)
    requires
        is_label_cache(entries, capacity),
    ensures
        is_label_cache(with_labels(entries, capacity, labels), capacity),
    decreases labels.len(),
{
    if labels.len() > 0 {
        lemma_with_labels(entries, capacity, labels.drop_last());
        lemma_with_recent(
            with_labels(entries, capacity, labels.drop_last()),
            capacity,
            labels.last(),
        );
    }
}

/// Labels can be looked up in two runs.
pub proof fn lemma_with_labels_concat(
    entries: Seq<(Seq<char>, Seq<char>)>,
    capacity: nat,
    first: Seq<Seq<char>>,
    second: Seq<Seq<char>>,
)
    ensures
        with_labels(entries, capacity, first + second) == with_labels(
            with_labels(entries, capacity, first),
            capacity,
            second,
        ),
    decreases second.len(),
{
    if second.len() == 0 {
        assert(first + second =~= first);
    } else {
        lemma_with_labels_concat(entries, capacity, first, second.drop_last());
        assert((first + second).drop_last() =~= first + second.drop_last());
    }
}

} // verus!
