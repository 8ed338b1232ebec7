//! Outcomes of a pass that collects items until it ends or fails.
use vstd::prelude::*;

verus! {

/// `first`, then what `rest` holds; the error of `rest` if it is one.
pub open spec fn prepend<T, E>(first: Seq<T>, rest: Result<Seq<T>, E>) -> Result<Seq<T>, E> {
    match rest {
        Ok(items) => Ok(first + items),
        Err(e) => Err(e),
    }
}

/// Collecting one more item before the rest is collecting it first.
pub proof fn lemma_prepend_push<T, E>(done: Seq<T>, item: T, rest: Result<Seq<T>, E>)
    ensures
        prepend(done, prepend(seq![item], rest)) == prepend(done.push(item), rest),
{
    if let Ok(items) = rest {
        assert(done + (seq![item] + items) == done.push(item) + items);
    }
}

/// Collecting nothing changes nothing.
pub proof fn lemma_prepend_nothing<T, E>(rest: Result<Seq<T>, E>)
    ensures
        prepend(Seq::empty(), rest) == rest,
{
    if let Ok(items) = rest {
        assert(Seq::<T>::empty() + items == items);
    }
}

} // verus!
