//! Mapping a sequence, told by indices.

use vstd::prelude::*;

verus! {

/// Filtering and mapping lists, in order, one value for each index that has one.
pub proof fn lemma_filter_map_listing<A, B>(s: Seq<A>, f: spec_fn(A) -> Option<B>) -> (at: Seq<int>)
    ensures
        at.len() == s.filter_map(f).len(),
        forall|k: int|
            0 <= k < at.len() ==> 0 <= (#[trigger] at[k]) < s.len() && f(s[at[k]]) == Some(
                s.filter_map(f)[k],
            ),
        forall|j: int, k: int| 0 <= j < k < at.len() ==> (#[trigger] at[j]) < (#[trigger] at[k]),
        forall|i: int|
            0 <= i < s.len() && f(#[trigger] s[i]) is Some ==> at.contains(i),
    decreases s.len(),
{
    if s.len() == 0 {
        Seq::empty()
    } else {
        let shorter = s.drop_last();
        let before = lemma_filter_map_listing(shorter, f);
        assert forall|k: int| 0 <= k < before.len() implies f(s[#[trigger] before[k]]) == Some(
            shorter.filter_map(f)[k],
        ) by {
            assert(shorter[before[k]] == s[before[k]]);
        }
        let last = s.len() - 1;
        let at = if f(s[last]) is Some {
            before.push(last)
        } else {
            before
        };
        assert forall|i: int| 0 <= i < s.len() && f(#[trigger] s[i]) is Some implies at.contains(
            i,
        ) by {
            if i < last {
                assert(shorter[i] == s[i]);
                assert(before.contains(i));
                let k = before.index_of(i);
                assert(at[k] == i);
            } else {
                assert(at[before.len() as int] == i);
            }
        }
        at
    }
}

/// There are as many values as elements that have one.
pub proof fn lemma_filter_map_count<A, B>(
    s: Seq<A>,
    f: spec_fn(A) -> Option<B>,
    has_value: spec_fn(A) -> bool,
)
    requires
        forall|x: A| #[trigger] has_value(x) <==> f(x) is Some,
    ensures
        s.filter_map(f).len() == s.filter(has_value).len(),
    decreases s.len(),
{
    reveal(Seq::filter);
    if s.len() > 0 {
        lemma_filter_map_count(s.drop_last(), f, has_value);
        assert(has_value(s.last()) <==> f(s.last()) is Some);
    }
}

/// The value of an index is among the values.
pub proof fn lemma_filter_map_has<A, B>(s: Seq<A>, f: spec_fn(A) -> Option<B>, i: int, value: B)
    requires
        0 <= i < s.len(),
        f(s[i]) == Some(value),
    ensures
        s.filter_map(f).contains(value),
{
    let at = lemma_filter_map_listing(s, f);
    assert(f(s[i]) is Some);
    assert(at.contains(i));
    let k = at.index_of(i);
    assert(at[k] == i);
    assert(s.filter_map(f)[k] == value);
}

/// What a part contains, the whole contains.
pub proof fn lemma_flatten_has<B>(parts: Seq<Seq<B>>, i: int, value: B)
    requires
        0 <= i < parts.len(),
        parts[i].contains(value),
    ensures
        parts.flatten().contains(value),
    decreases parts.len(),
{
    let first = parts.first();
    let rest = parts.drop_first().flatten();
    assert(parts.flatten() == first + rest);
    if i == 0 {
        let k = first.index_of(value);
        assert(parts.flatten()[k] == value);
    } else {
        assert(parts.drop_first()[i - 1] == parts[i]);
        lemma_flatten_has(parts.drop_first(), i - 1, value);
        let k = rest.index_of(value);
        assert(parts.flatten()[first.len() + k] == value);
    }
}

/// What the whole contains, some part contains.
pub proof fn lemma_flatten_part<B>(parts: Seq<Seq<B>>, value: B) -> (i: int)
    requires
        parts.flatten().contains(value),
    ensures
        0 <= i < parts.len(),
        parts[i].contains(value),
    decreases parts.len(),
{
    let whole = parts.flatten();
    if parts.len() == 0 {
        assert(whole =~= Seq::empty());
        0
    } else {
        let first = parts.first();
        let rest = parts.drop_first().flatten();
        assert(whole == first + rest);
        let k = whole.index_of(value);
        if k < first.len() {
            assert(first[k] == value);
            0
        } else {
            assert(rest[k - first.len()] == value);
            let i = lemma_flatten_part(parts.drop_first(), value);
            assert(parts.drop_first()[i] == parts[i + 1]);
            i + 1
        }
    }
}

} // verus!
