//! The first item of a list that meets a condition.
use vstd::prelude::*;

verus! {

/// Where the first item that is wanted stands.
pub open spec fn first<T>(items: Seq<T>, wanted: spec_fn(T) -> bool) -> Option<int>
    decreases items.len(),
{
    if items.len() == 0 {
        None
    } else {
        match first(items.drop_last(), wanted) {
            Some(i) => Some(i),
            None => if wanted(items.last()) {
                Some(items.len() - 1)
            } else {
                None
            },
        }
    }
}

/// What is found is wanted, and nothing before it is.
pub proof fn lemma_first<T>(items: Seq<T>, wanted: spec_fn(T) -> bool)
    ensures
        match first(items, wanted) {
            Some(i) => 0 <= i < items.len() && wanted(items[i]) && forall|j: int|
                0 <= j < i ==> !wanted(#[trigger] items[j]),
            None => forall|j: int| 0 <= j < items.len() ==> !wanted(#[trigger] items[j]),
        },
    decreases items.len(),
{
    if items.len() > 0 {
        let before = items.drop_last();
        lemma_first(before, wanted);
        assert forall|j: int| 0 <= j < before.len() implies #[trigger] items[j] == before[j] by {}
    }
}

/// Where the first wanted item stands depends only on which items are wanted.
pub proof fn lemma_first_same<A, B>(
    a: Seq<A>,
    wanted_a: spec_fn(A) -> bool,
    b: Seq<B>,
    wanted_b: spec_fn(B) -> bool,
)
    requires
        a.len() == b.len(),
        forall|i: int| 0 <= i < a.len() ==> wanted_a(#[trigger] a[i]) == wanted_b(b[i]),
    ensures
        first(a, wanted_a) == first(b, wanted_b),
    decreases a.len(),
{
    if a.len() > 0 {
        assert forall|i: int| 0 <= i < a.drop_last().len() implies wanted_a(
            #[trigger] a.drop_last()[i],
        ) == wanted_b(b.drop_last()[i]) by {
            assert(a[i] == a.drop_last()[i]);
        }
        lemma_first_same(a.drop_last(), wanted_a, b.drop_last(), wanted_b);
        assert(a[a.len() - 1] == a.last());
    }
}

/// Adding an item at the end.
pub proof fn lemma_first_push<T>(items: Seq<T>, item: T, wanted: spec_fn(T) -> bool)
    ensures
        first(items.push(item), wanted) == (match first(items, wanted) {
            Some(i) => Some(i),
            None => if wanted(item) {
                Some(items.len() as int)
            } else {
                None
            },
        }),
{
    assert(items.push(item).drop_last() =~= items);
}

} // verus!
