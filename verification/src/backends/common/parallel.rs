//! Fan-out helpers for every backend that walks a slice of records or sweeps.
//!
//! Both helpers preserve input order and fail if the mapped function fails on
//! any item.

use rayon::iter::{IntoParallelRefIterator, ParallelIterator};
use vstd::prelude::*;

verus! {

/// `rayon`'s `par_iter`, `map` and `collect` into a `Result` of a `Vec`: the
/// results in input order if every call gave one, otherwise the error of some
/// call. Of several errors it is not determined which one is returned.
#[verifier::external_body]
fn rayon_map<T, U, E, F>(items: &[T], f: F) -> (r: Result<Vec<U>, E>) where
    T: Sync,
    U: Send,
    E: Send,
    F: Fn(&T) -> Result<U, E> + Sync + Send,

    requires
        forall|i: int| 0 <= i < items@.len() ==> call_requires(f, (&#[trigger] items@[i],)),
    ensures
        match r {
            Ok(out) => {
                &&& out@.len() == items@.len()
                &&& forall|i: int|
                    0 <= i < items@.len() ==> call_ensures(
                        f,
                        (&#[trigger] items@[i],),
                        Ok(out@[i]),
                    )
            },
            Err(e) => exists|i: int|
                0 <= i < items@.len() && call_ensures(f, (&#[trigger] items@[i],), Err(e)),
        },
{
    items.par_iter().map(f).collect()
}

/// Map `f` over `items` in parallel: the results in input order if every call
/// gave one, otherwise the error of some call.
pub fn par_map<T, U, E, F>(items: &[T], f: F) -> (r: Result<Vec<U>, E>) where
    T: Sync,
    U: Send,
    E: Send,
    F: Fn(&T) -> Result<U, E> + Sync + Send,

    requires
        forall|i: int| 0 <= i < items@.len() ==> call_requires(f, (&#[trigger] items@[i],)),
    ensures
        match r {
            Ok(out) => {
                &&& out@.len() == items@.len()
                &&& forall|i: int|
                    0 <= i < items@.len() ==> call_ensures(
                        f,
                        (&#[trigger] items@[i],),
                        Ok(out@[i]),
                    )
            },
            Err(e) => exists|i: int|
                0 <= i < items@.len() && call_ensures(f, (&#[trigger] items@[i],), Err(e)),
        },
{
    rayon_map(items, f)
}

/// `f` takes this item at this index.
spec fn takes<T, U, F: Fn(usize, &T) -> U>(f: &F, i: usize, item: &T) -> bool {
    call_requires(*f, (i, item))
}

/// `f` may give `r` for this item at this index.
spec fn gives<T, U, F: Fn(usize, &T) -> U>(f: &F, i: usize, item: &T, r: U) -> bool {
    call_ensures(*f, (i, item), r)
}

/// [`par_map`] for a function that also takes the item's index.
pub fn par_enumerate_map<T, U, E, F>(items: &[T], f: F) -> (r: Result<Vec<U>, E>) where
    T: Sync,
    U: Send,
    E: Send,
    F: Fn(usize, &T) -> Result<U, E> + Sync + Send,

    requires
        forall|i: int|
            0 <= i < items@.len() ==> call_requires(f, (i as usize, &#[trigger] items@[i])),
    ensures
        match r {
            Ok(out) => {
                &&& out@.len() == items@.len()
                &&& forall|i: int|
                    0 <= i < items@.len() ==> call_ensures(
                        f,
                        (i as usize, &#[trigger] items@[i]),
                        Ok(out@[i]),
                    )
            },
            Err(e) => exists|i: int|
                0 <= i < items@.len() && call_ensures(
                    f,
                    (i as usize, &#[trigger] items@[i]),
                    Err(e),
                ),
        },
{
    let mut indexed: Vec<(usize, &T)> = Vec::with_capacity(items.len());
    let mut i: usize = 0;
    while i < items.len()
        invariant
            i <= items@.len(),
            indexed@.len() == i,
            forall|j: int|
                0 <= j < i ==> (#[trigger] indexed@[j]).0 == j && *indexed@[j].1 == items@[j],
        decreases items@.len() - i,
    {
        indexed.push((i, &items[i]));
        i += 1;
    }
    let call = |pair: &(usize, &T)| -> (r: Result<U, E>)
        requires
            takes(&f, pair.0, pair.1),
        ensures
            gives(&f, pair.0, pair.1, r),
        { f(pair.0, pair.1) };
    proof {
        assert forall|j: int| 0 <= j < indexed@.len() implies takes(
            &f,
            (#[trigger] indexed@[j]).0,
            indexed@[j].1,
        ) by {
            assert(call_requires(f, (j as usize, &items@[j])));
        }
    }
    let r = par_map(indexed.as_slice(), call);
    proof {
        if r is Ok {
            let out = r->Ok_0;
            assert forall|j: int| 0 <= j < items@.len() implies call_ensures(
                f,
                (j as usize, &#[trigger] items@[j]),
                Ok(out@[j]),
            ) by {
                assert(gives(&f, indexed@[j].0, indexed@[j].1, Ok(out@[j])));
            }
        } else {
            let e = r->Err_0;
            let j = choose|j: int|
                0 <= j < indexed@.len() && gives(
                    &f,
                    (#[trigger] indexed@[j]).0,
                    indexed@[j].1,
                    Err(e),
                );
            assert(call_ensures(f, (j as usize, &items@[j]), Err(e)));
        }
    }
    r
}

} // verus!
