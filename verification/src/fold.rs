//! Going through a sequence until something is wrong.
use vstd::prelude::*;

verus! {

/// Takes `items` one by one from the left, from the state `start` on; the first error ends it.
pub open spec fn fold<S, A, E>(
    start: S,
    items: Seq<A>,
    step: spec_fn(S, A) -> Result<S, E>,
) -> Result<S, E>
    decreases items.len(),
{
    if items.len() == 0 {
        Ok(start)
    } else {
        match fold(start, items.drop_last(), step) {
            Ok(state) => step(state, items.last()),
            Err(error) => Err(error),
        }
    }
}

pub proof fn lemma_fold_step<S, A, E>(
    start: S,
    items: Seq<A>,
    i: int,
    step: spec_fn(S, A) -> Result<S, E>,
)
    requires
        0 <= i < items.len(),
    ensures
        fold(start, items.take(i + 1), step) == (match fold(start, items.take(i), step) {
            Ok(state) => step(state, items[i]),
            Err(error) => Err(error),
        }),
{
    assert(items.take(i + 1).drop_last() == items.take(i));
}

pub proof fn lemma_fold_all<S, A, E>(
    start: S,
    items: Seq<A>,
    step: spec_fn(S, A) -> Result<S, E>,
)
    ensures
        fold(start, items.take(items.len() as int), step) == fold(start, items, step),
{
    assert(items.take(items.len() as int) == items);
}

/// What comes after an error does not count.
pub proof fn lemma_fold_error<S, A, E>(
    start: S,
    items: Seq<A>,
    i: int,
    step: spec_fn(S, A) -> Result<S, E>,
)
    requires
        0 <= i <= items.len(),
        fold(start, items.take(i), step) is Err,
    ensures
        fold(start, items, step) == fold(start, items.take(i), step),
    decreases items.len() - i,
{
    if i < items.len() {
        lemma_fold_step(start, items, i, step);
        lemma_fold_error(start, items, i + 1, step);
    } else {
        lemma_fold_all(start, items, step);
    }
}

pub proof fn lemma_fold_concat<S, A, E>(
    start: S,
    a: Seq<A>,
    b: Seq<A>,
    step: spec_fn(S, A) -> Result<S, E>,
)
    ensures
        fold(start, a + b, step) == (match fold(start, a, step) {
            Ok(state) => fold(state, b, step),
            Err(error) => Err(error),
        }),
    decreases b.len(),
{
    if b.len() == 0 {
        assert(a + b == a);
    } else {
        assert((a + b).drop_last() == a + b.drop_last());
        lemma_fold_concat(start, a, b.drop_last(), step);
    }
}

/// What holds at the start and is kept by every step holds at the end.
pub proof fn lemma_fold_keeps<S, A, E>(
    start: S,
    items: Seq<A>,
    step: spec_fn(S, A) -> Result<S, E>,
    inv: spec_fn(S) -> bool,
    ok: spec_fn(A) -> bool,
)
    requires
        inv(start),
        forall|i: int| 0 <= i < items.len() ==> ok(#[trigger] items[i]),
        forall|s: S, a: A|
            inv(s) && ok(a) && (#[trigger] step(s, a)) is Ok ==> inv(step(s, a)->Ok_0),
    ensures
        fold(start, items, step) is Ok ==> inv(fold(start, items, step)->Ok_0),
    decreases items.len(),
{
    if items.len() > 0 {
        let front = items.drop_last();
        assert forall|i: int| 0 <= i < front.len() implies ok(#[trigger] front[i]) by {
            assert(front[i] == items[i]);
        }
        lemma_fold_keeps(start, front, step, inv, ok);
        assert(ok(items[items.len() - 1]));
    }
}

} // verus!
