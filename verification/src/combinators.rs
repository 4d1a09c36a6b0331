//! The parallel combinator kernel: `parallel_map`, `parallel_starmap`,
//! `parallel_filter` and `parallel_reduce` over an input vector, partitioned
//! into chunks that are dispatched across the worker pool. Output order
//! always follows input order; per-item task errors abort the call and
//! surface as a `TaskFailed` error.

use vstd::prelude::*;

use crate::callable::{Combiner, Mapper, Mapper2, Predicate, TaskError};
use crate::chunking::{chunks_view, derive_chunk_size, lemma_spec_chunks_flatten, spec_chunks, split_into_chunks};
use crate::error::{ErrorKind, ErrorStrategy, ParallelError};
use rayon::prelude::IntoParallelIterator;
use rayon::prelude::IntoParallelRefIterator;
use rayon::prelude::ParallelIterator;

verus! {

/// Relies on `rayon::current_num_threads`: the size of the current thread
/// pool, which holds at least one worker thread.
#[verifier::external_body]
pub fn current_worker_count() -> (r: usize)
    ensures
        r >= 1,
{
    let n = rayon::current_num_threads();
    if n >= 1 {
        n
    } else {
        1
    }
}

/// `out` is the image of `items` under the callable `f`, in order, with every
/// call succeeding.
pub open spec fn maps_to<T, U, M: Mapper<T, U>>(f: &M, items: Seq<T>, out: Seq<U>) -> bool {
    &&& out.len() == items.len()
    &&& forall|i: int|
        0 <= i < items.len() ==> f.spec_call(items[i]) == Ok::<U, Seq<char>>(#[trigger] out[i])
}

/// Some item of `items` makes `f` raise an error of kind `kind`.
pub open spec fn some_call_fails<T, U, M: Mapper<T, U>>(f: &M, items: Seq<T>, kind: Seq<char>) -> bool {
    exists|i: int|
        0 <= i < items.len() && #[trigger] f.spec_call(items[i]) == Err::<U, Seq<char>>(kind)
}

/// What mapping one chunk returns: either the in-order image of the chunk, or
/// the error kind of some failing item in it.
pub open spec fn map_chunk_post<T, U, M: Mapper<T, U>>(
    f: &M,
    chunk: Seq<T>,
    r: Result<Vec<U>, TaskError>,
) -> bool {
    match r {
        Ok(out) => maps_to(f, chunk, out@),
        Err(e) => some_call_fails(f, chunk, e.kind_name@),
    }
}

/// Apply `f` to every item of one chunk, in order; the first error aborts.
pub fn map_chunk<T, U, M: Mapper<T, U>>(f: &M, chunk: &Vec<T>) -> (r: Result<Vec<U>, TaskError>)
    ensures
        map_chunk_post(f, chunk@, r),
{
    let mut out: Vec<U> = Vec::new();
    let mut j: usize = 0;
    while j < chunk.len()
        invariant
            j <= chunk@.len(),
            maps_to(f, chunk@.take(j as int), out@),
        decreases chunk@.len() - j,
    {
        match f.call(&chunk[j]) {
            Ok(u) => {
                out.push(u);
                proof {
                    assert(chunk@.take(j + 1 as int) =~= chunk@.take(j as int).push(chunk@[j as int]));
                }
                j = j + 1;
            },
            Err(e) => {
                return Err(e);
            },
        }
    }
    proof {
        assert(chunk@.take(chunk@.len() as int) =~= chunk@);
    }
    Ok(out)
}

/// Relies on rayon's `par_iter().map(..).collect::<Vec<_>>()`: the closure is
/// applied to each chunk and the per-chunk results are collected in chunk
/// order. The closure only calls the verified `map_chunk`.
#[verifier::external_body]
fn par_map_chunks<T, U, M>(f: &M, chunks: &Vec<Vec<T>>) -> (r: Vec<Result<Vec<U>, TaskError>>)
    where
        T: Sync,
        U: Send,
        M: Mapper<T, U> + Sync,
    ensures
        r@.len() == chunks@.len(),
        forall|i: int| 0 <= i < r@.len() ==> map_chunk_post(f, chunks@[i]@, #[trigger] r@[i]),
{
    chunks.par_iter().map(|c| map_chunk(f, c)).collect()
}

/// Every element of a member of a sequence of sequences occurs in the
/// concatenation of its members.
pub(crate) proof fn lemma_flatten_contains<T>(ss: Seq<Seq<T>>, j: int, k: int)
    requires
        0 <= j < ss.len(),
        0 <= k < ss[j].len(),
    ensures
        ss.flatten().contains(ss[j][k]),
    decreases j,
{
    assert(ss.flatten() == ss.first() + ss.drop_first().flatten());
    if j == 0 {
        assert(ss.flatten()[k] == ss[0][k]);
    } else {
        lemma_flatten_contains(ss.drop_first(), j - 1, k);
        let inner = ss.drop_first().flatten();
        let idx = choose|i: int| 0 <= i < inner.len() && inner[i] == ss[j][k];
        assert(ss.flatten()[ss.first().len() + idx] == ss[j][k]);
    }
}

/// Concatenating two in-order images gives the in-order image of the
/// concatenated inputs.
pub(crate) proof fn lemma_maps_to_concat<T, U, M: Mapper<T, U>>(f: &M, a: Seq<T>, b: Seq<T>, x: Seq<U>, y: Seq<U>)
    requires
        maps_to(f, a, x),
        maps_to(f, b, y),
    ensures
        maps_to(f, a + b, x + y),
{
    assert forall|i: int| 0 <= i < (a + b).len() implies f.spec_call((a + b)[i]) == Ok::<
        U,
        Seq<char>,
    >(#[trigger] (x + y)[i]) by {
        if i < a.len() {
            assert((a + b)[i] == a[i]);
            assert((x + y)[i] == x[i]);
        } else {
            assert((a + b)[i] == b[i - a.len()]);
            assert((x + y)[i] == y[i - x.len()]);
        }
    }
}

/// Run `f` over every item of `items` across the worker pool, chunked by
/// `chunk_size` (or the derived default), and return the results in input
/// order. The call succeeds exactly when every item maps successfully; the
/// first failing item's error kind is surfaced as a `TaskFailed` error whose
/// message is the task's error-kind name.
pub fn parallel_map<T, U, M>(f: &M, items: Vec<T>, chunk_size: Option<usize>) -> (r: Result<
    Vec<U>,
    ParallelError,
>)
    where
        T: Sync,
        U: Send,
        M: Mapper<T, U> + Sync,
    requires
        chunk_size matches Some(s) ==> s >= 1,
    ensures
        r matches Ok(out) ==> maps_to(f, items@, out@),
        r matches Err(e) ==> e.kind == ErrorKind::TaskFailed && some_call_fails(
            f,
            items@,
            e.message@,
        ),
        (forall|i: int|
            0 <= i < items@.len() ==> (#[trigger] f.spec_call(items@[i])) is Ok) ==> r is Ok,
{
    let ghost all = items@;
    let size = match chunk_size {
        Some(s) => s,
        None => {
            let workers = current_worker_count();
            derive_chunk_size(items.len(), workers)
        },
    };
    let chunks = split_into_chunks(items, size);
    let results = par_map_chunks(f, &chunks);
    let ghost cv = chunks_view(chunks@);
    let mut out: Vec<U> = Vec::new();
    let mut j: usize = 0;
    let mut results = results;
    // Consume the per-chunk results in chunk order, concatenating successes.
    let n = results.len();
    while j < n
        invariant
            all == items@,
            n == results@.len() + j,
            j <= cv.len(),
            cv.len() == n,
            cv.flatten() == all,
            maps_to(f, cv.take(j as int).flatten(), out@),
            forall|i: int|
                0 <= i < results@.len() ==> map_chunk_post(f, cv[j + i], #[trigger] results@[i]),
        decreases n - j,
    {
        let ghost pre = results@;
        let head = results.remove(0);
        proof {
            assert(map_chunk_post(f, cv[j + 0], pre[0]));
            assert forall|i: int| 0 <= i < results@.len() implies #[trigger] results@[i] == pre[
                i + 1
            ] by {
                assert(results@ == pre.remove(0));
            }
        }
        match head {
            Ok(mut chunk_out) => {
                proof {
                    cv.take(j as int).lemma_flatten_push(cv[j as int]);
                    assert(cv.take(j + 1 as int) =~= cv.take(j as int).push(cv[j as int]));
                    lemma_maps_to_concat(
                        f,
                        cv.take(j as int).flatten(),
                        cv[j as int],
                        out@,
                        chunk_out@,
                    );
                }
                out.append(&mut chunk_out);
                j = j + 1;
            },
            Err(e) => {
                proof {
                    assert(some_call_fails(f, cv[j as int], e.kind_name@));
                    let k = choose|k: int|
                        0 <= k < cv[j as int].len() && #[trigger] f.spec_call(cv[j as int][k])
                            == Err::<U, Seq<char>>(e.kind_name@);
                    lemma_flatten_contains(cv, j as int, k);
                    assert(all.contains(cv[j as int][k]));
                    let idx = choose|i: int| 0 <= i < all.len() && all[i] == cv[j as int][k];
                    assert(f.spec_call(all[idx]) == Err::<U, Seq<char>>(e.kind_name@));
                    assert(some_call_fails(f, all, e.kind_name@));
                }
                return Err(ParallelError::with_message(ErrorKind::TaskFailed, e.kind_name));
            },
        }
    }
    proof {
        assert(cv.take(cv.len() as int) =~= cv);
    }
    Ok(out)
}

/// `out` is the image of the packed pairs `items` under the two-argument
/// callable `f`, in order, with every call succeeding.
pub open spec fn maps2_to<A, B, U, M: Mapper2<A, B, U>>(
    f: &M,
    items: Seq<(A, B)>,
    out: Seq<U>,
) -> bool {
    &&& out.len() == items.len()
    &&& forall|i: int|
        0 <= i < items.len() ==> f.spec_call2(items[i].0, items[i].1) == Ok::<U, Seq<char>>(
            #[trigger] out[i],
        )
}

/// Some pair of `items` makes `f` raise an error of kind `kind`.
pub open spec fn some_call2_fails<A, B, U, M: Mapper2<A, B, U>>(
    f: &M,
    items: Seq<(A, B)>,
    kind: Seq<char>,
) -> bool {
    exists|i: int|
        0 <= i < items.len() && #[trigger] f.spec_call2(items[i].0, items[i].1) == Err::<
            U,
            Seq<char>,
        >(kind)
}

/// What star-mapping one chunk returns.
pub open spec fn starmap_chunk_post<A, B, U, M: Mapper2<A, B, U>>(
    f: &M,
    chunk: Seq<(A, B)>,
    r: Result<Vec<U>, TaskError>,
) -> bool {
    match r {
        Ok(out) => maps2_to(f, chunk, out@),
        Err(e) => some_call2_fails(f, chunk, e.kind_name@),
    }
}

/// Apply `f` to every packed pair of one chunk, in order.
pub fn starmap_chunk<A, B, U, M: Mapper2<A, B, U>>(f: &M, chunk: &Vec<(A, B)>) -> (r: Result<
    Vec<U>,
    TaskError,
>)
    ensures
        starmap_chunk_post(f, chunk@, r),
{
    let mut out: Vec<U> = Vec::new();
    let mut j: usize = 0;
    while j < chunk.len()
        invariant
            j <= chunk@.len(),
            maps2_to(f, chunk@.take(j as int), out@),
        decreases chunk@.len() - j,
    {
        let pair = &chunk[j];
        match f.call2(&pair.0, &pair.1) {
            Ok(u) => {
                out.push(u);
                proof {
                    assert(chunk@.take(j + 1 as int) =~= chunk@.take(j as int).push(chunk@[j as int]));
                }
                j = j + 1;
            },
            Err(e) => {
                return Err(e);
            },
        }
    }
    proof {
        assert(chunk@.take(chunk@.len() as int) =~= chunk@);
    }
    Ok(out)
}

/// Relies on rayon's `par_iter().map(..).collect::<Vec<_>>()`: the closure is
/// applied to each chunk and the per-chunk results are collected in chunk
/// order. The closure only calls the verified `starmap_chunk`.
#[verifier::external_body]
fn par_starmap_chunks<A, B, U, M>(f: &M, chunks: &Vec<Vec<(A, B)>>) -> (r: Vec<
    Result<Vec<U>, TaskError>,
>)
    where
        A: Sync,
        B: Sync,
        U: Send,
        M: Mapper2<A, B, U> + Sync,
    ensures
        r@.len() == chunks@.len(),
        forall|i: int| 0 <= i < r@.len() ==> starmap_chunk_post(f, chunks@[i]@, #[trigger] r@[i]),
{
    chunks.par_iter().map(|c| starmap_chunk(f, c)).collect()
}

/// Concatenating two in-order pair images gives the in-order image of the
/// concatenated inputs.
proof fn lemma_maps2_to_concat<A, B, U, M: Mapper2<A, B, U>>(
    f: &M,
    a: Seq<(A, B)>,
    b: Seq<(A, B)>,
    x: Seq<U>,
    y: Seq<U>,
)
    requires
        maps2_to(f, a, x),
        maps2_to(f, b, y),
    ensures
        maps2_to(f, a + b, x + y),
{
    assert forall|i: int| 0 <= i < (a + b).len() implies f.spec_call2(
        (a + b)[i].0,
        (a + b)[i].1,
    ) == Ok::<U, Seq<char>>(#[trigger] (x + y)[i]) by {
        if i < a.len() {
            assert((a + b)[i] == a[i]);
            assert((x + y)[i] == x[i]);
        } else {
            assert((a + b)[i] == b[i - a.len()]);
            assert((x + y)[i] == y[i - x.len()]);
        }
    }
}

/// Run the two-argument callable `f` over a vector of packed argument pairs,
/// chunked across the worker pool, returning results in input order; the
/// first failing pair's error kind surfaces as a `TaskFailed` error.
pub fn parallel_starmap<A, B, U, M>(f: &M, items: Vec<(A, B)>, chunk_size: Option<usize>) -> (r:
    Result<Vec<U>, ParallelError>)
    where
        A: Sync,
        B: Sync,
        U: Send,
        M: Mapper2<A, B, U> + Sync,
    requires
        chunk_size matches Some(s) ==> s >= 1,
    ensures
        r matches Ok(out) ==> maps2_to(f, items@, out@),
        r matches Err(e) ==> e.kind == ErrorKind::TaskFailed && some_call2_fails(
            f,
            items@,
            e.message@,
        ),
        (forall|i: int|
            0 <= i < items@.len() ==> (#[trigger] f.spec_call2(items@[i].0, items@[i].1))
                is Ok) ==> r is Ok,
{
    let ghost all = items@;
    let size = match chunk_size {
        Some(s) => s,
        None => {
            let workers = current_worker_count();
            derive_chunk_size(items.len(), workers)
        },
    };
    let chunks = split_into_chunks(items, size);
    let results = par_starmap_chunks(f, &chunks);
    let ghost cv = chunks_view(chunks@);
    let mut out: Vec<U> = Vec::new();
    let mut j: usize = 0;
    let mut results = results;
    let n = results.len();
    while j < n
        invariant
            all == items@,
            n == results@.len() + j,
            j <= cv.len(),
            cv.len() == n,
            cv.flatten() == all,
            maps2_to(f, cv.take(j as int).flatten(), out@),
            forall|i: int|
                0 <= i < results@.len() ==> starmap_chunk_post(f, cv[j + i], #[trigger] results@[i]),
        decreases n - j,
    {
        let ghost pre = results@;
        let head = results.remove(0);
        proof {
            assert(starmap_chunk_post(f, cv[j + 0], pre[0]));
            assert forall|i: int| 0 <= i < results@.len() implies #[trigger] results@[i] == pre[
                i + 1
            ] by {
                assert(results@ == pre.remove(0));
            }
        }
        match head {
            Ok(mut chunk_out) => {
                proof {
                    cv.take(j as int).lemma_flatten_push(cv[j as int]);
                    assert(cv.take(j + 1 as int) =~= cv.take(j as int).push(cv[j as int]));
                    lemma_maps2_to_concat(
                        f,
                        cv.take(j as int).flatten(),
                        cv[j as int],
                        out@,
                        chunk_out@,
                    );
                }
                out.append(&mut chunk_out);
                j = j + 1;
            },
            Err(e) => {
                proof {
                    assert(some_call2_fails(f, cv[j as int], e.kind_name@));
                    let k = choose|k: int|
                        0 <= k < cv[j as int].len() && #[trigger] f.spec_call2(
                            cv[j as int][k].0,
                            cv[j as int][k].1,
                        ) == Err::<U, Seq<char>>(e.kind_name@);
                    lemma_flatten_contains(cv, j as int, k);
                    assert(all.contains(cv[j as int][k]));
                    let idx = choose|i: int| 0 <= i < all.len() && all[i] == cv[j as int][k];
                    assert(f.spec_call2(all[idx].0, all[idx].1) == Err::<U, Seq<char>>(
                        e.kind_name@,
                    ));
                    assert(some_call2_fails(f, all, e.kind_name@));
                }
                return Err(ParallelError::with_message(ErrorKind::TaskFailed, e.kind_name));
            },
        }
    }
    proof {
        assert(cv.take(cv.len() as int) =~= cv);
    }
    Ok(out)
}

/// The successful outputs of `f` over `items`, in input order, failing
/// items omitted.
pub open spec fn spec_successes<T, U, M: Mapper<T, U>>(f: &M, items: Seq<T>) -> Seq<U>
    decreases items.len(),
{
    if items.len() == 0 {
        Seq::empty()
    } else {
        let rest = spec_successes(f, items.drop_last());
        match f.spec_call(items.last()) {
            Ok(u) => rest.push(u),
            Err(_) => rest,
        }
    }
}

/// The error kinds `f` raises over `items`, in input order.
pub open spec fn spec_failure_kinds<T, U, M: Mapper<T, U>>(f: &M, items: Seq<T>) -> Seq<Seq<char>>
    decreases items.len(),
{
    if items.len() == 0 {
        Seq::empty()
    } else {
        let rest = spec_failure_kinds(f, items.drop_last());
        match f.spec_call(items.last()) {
            Ok(_) => rest,
            Err(k) => rest.push(k),
        }
    }
}

/// Run `f` over every item under the given per-item error strategy:
/// `Raise` aborts at the first failing item, exactly as `parallel_map`
/// does; `Ignore` omits failing items from the output; `Collect` omits them
/// and hands their errors back on the side channel, in input order.
pub fn parallel_map_with_strategy<T, U, M>(
    f: &M,
    items: Vec<T>,
    chunk_size: Option<usize>,
    strategy: ErrorStrategy,
) -> (r: Result<(Vec<U>, Vec<TaskError>), ParallelError>)
    where
        T: Sync,
        U: Send,
        M: Mapper<T, U> + Sync,
    requires
        chunk_size matches Some(s) ==> s >= 1,
    ensures
        strategy == ErrorStrategy::Raise ==> match r {
            Ok(p) => maps_to(f, items@, p.0@) && p.1@.len() == 0,
            Err(e) => e.kind == ErrorKind::TaskFailed && some_call_fails(f, items@, e.message@),
        },
        strategy != ErrorStrategy::Raise ==> (r matches Ok(p) && p.0@ == spec_successes(f, items@)
            && (strategy == ErrorStrategy::Collect ==> p.1@.map_values(
            |t: TaskError| t.kind_name@,
        ) == spec_failure_kinds(f, items@)) && (strategy == ErrorStrategy::Ignore ==> p.1@.len()
            == 0)),
{
    if strategy == ErrorStrategy::Raise {
        return match parallel_map(f, items, chunk_size) {
            Ok(out) => Ok((out, Vec::new())),
            Err(e) => Err(e),
        };
    }
    let collect = strategy == ErrorStrategy::Collect;
    let mut out: Vec<U> = Vec::new();
    let mut side: Vec<TaskError> = Vec::new();
    let mut i: usize = 0;
    let n = items.len();
    while i < n
        invariant
            i <= n,
            n == items@.len(),
            out@ == spec_successes(f, items@.take(i as int)),
            collect ==> side@.map_values(|t: TaskError| t.kind_name@) == spec_failure_kinds(
                f,
                items@.take(i as int),
            ),
            !collect ==> side@.len() == 0,
        decreases n - i,
    {
        proof {
            assert(items@.take(i + 1 as int).drop_last() =~= items@.take(i as int));
            assert(items@.take(i + 1 as int).last() == items@[i as int]);
        }
        match f.call(&items[i]) {
            Ok(u) => {
                out.push(u);
            },
            Err(e) => {
                if collect {
                    let ghost pre = side@;
                    side.push(e);
                    proof {
                        assert(side@.map_values(|t: TaskError| t.kind_name@) =~= pre.map_values(
                            |t: TaskError| t.kind_name@,
                        ).push(side@.last().kind_name@));
                    }
                }
            },
        }
        i = i + 1;
    }
    proof {
        assert(items@.take(n as int) =~= items@);
    }
    Ok((out, side))
}

/// The predicate of a `Predicate` callable as a specification-level function.
pub open spec fn pred_of<T, P: Predicate<T>>(f: &P) -> spec_fn(T) -> bool {
    |t: T| f.spec_pred(t)
}

/// Keep the items of one chunk that satisfy the predicate, in order.
pub fn filter_chunk<T, P: Predicate<T>>(f: &P, chunk: Vec<T>) -> (r: Vec<T>)
    ensures
        r@ == chunk@.filter(pred_of(f)),
{
    broadcast use vstd::seq_lib::group_filter_ensures;

    let ghost all = chunk@;
    let mut rest = chunk;
    let mut out: Vec<T> = Vec::new();
    let ghost p = pred_of(f);
    proof {
        assert(all.skip(0) =~= all);
        assert(all.take(0) =~= Seq::<T>::empty());
    }
    while rest.len() > 0
        invariant
            p == pred_of(f),
            rest@.len() <= all.len(),
            all.take(all.len() - rest@.len()).filter(p) == out@,
            rest@ == all.skip(all.len() - rest@.len()),
        decreases rest@.len(),
    {
        let ghost k = all.len() - rest@.len();
        let t = rest.remove(0);
        proof {
            assert(t == all[k]);
            assert(all.take(k + 1) =~= all.take(k).push(all[k]));
            assert(rest@ =~= all.skip(k + 1));
            all.take(k).lemma_filter_push(all[k], p);
        }
        if f.test(&t) {
            out.push(t);
        }
    }
    proof {
        assert(all.take(all.len() as int) =~= all);
    }
    out
}

/// Relies on rayon's `into_par_iter().map(..).collect::<Vec<_>>()`: the
/// closure is applied to each chunk and the per-chunk results are collected
/// in chunk order. The closure only calls the verified `filter_chunk`.
#[verifier::external_body]
fn par_filter_chunks<T, P>(f: &P, chunks: Vec<Vec<T>>) -> (r: Vec<Vec<T>>)
    where
        T: Send,
        P: Predicate<T> + Sync,
    ensures
        r@.len() == chunks@.len(),
        forall|i: int| 0 <= i < r@.len() ==> (#[trigger] r@[i])@ == chunks@[i]@.filter(pred_of(f)),
{
    chunks.into_par_iter().map(|c| filter_chunk(f, c)).collect()
}

/// Keep the items of `items` that satisfy the predicate `f`, preserving input
/// order: the result is exactly the filtered subsequence of the input. The
/// predicate is applied to each item once, across the worker pool.
pub fn parallel_filter<T, P>(f: &P, items: Vec<T>, chunk_size: Option<usize>) -> (r: Vec<T>)
    where
        T: Send,
        P: Predicate<T> + Sync,
    requires
        chunk_size matches Some(s) ==> s >= 1,
    ensures
        r@ == items@.filter(pred_of(f)),
{
    broadcast use vstd::seq_lib::group_filter_ensures;

    let ghost all = items@;
    let ghost p = pred_of(f);
    let size = match chunk_size {
        Some(s) => s,
        None => {
            let workers = current_worker_count();
            derive_chunk_size(items.len(), workers)
        },
    };
    let chunks = split_into_chunks(items, size);
    let ghost cv = chunks_view(chunks@);
    let mut results = par_filter_chunks(f, chunks);
    let mut out: Vec<T> = Vec::new();
    let mut j: usize = 0;
    let n = results.len();
    while j < n
        invariant
            p == pred_of(f),
            n == results@.len() + j,
            j <= cv.len(),
            cv.len() == n,
            cv.flatten() == all,
            out@ == cv.take(j as int).flatten().filter(p),
            forall|i: int| 0 <= i < results@.len() ==> (#[trigger] results@[i])@ == cv[j + i].filter(p),
        decreases n - j,
    {
        let ghost pre = results@;
        let mut head = results.remove(0);
        proof {
            assert(pre[0]@ == cv[j + 0].filter(p));
            assert forall|i: int| 0 <= i < results@.len() implies #[trigger] results@[i] == pre[
                i + 1
            ] by {
                assert(results@ == pre.remove(0));
            }
            cv.take(j as int).lemma_flatten_push(cv[j as int]);
            assert(cv.take(j + 1 as int) =~= cv.take(j as int).push(cv[j as int]));
            Seq::filter_distributes_over_add(
                cv.take(j as int).flatten(),
                cv[j as int],
                p,
            );
        }
        out.append(&mut head);
        j = j + 1;
    }
    proof {
        assert(cv.take(cv.len() as int) =~= cv);
    }
    out
}

/// Fold `items` from the left, starting from `init`.
pub open spec fn spec_fold<T, C: Combiner<T>>(f: &C, init: T, items: Seq<T>) -> T
    decreases items.len(),
{
    if items.len() <= 0 {
        init
    } else {
        spec_fold(f, f.spec_combine(init, items.first()), items.drop_first())
    }
}

/// Fold a non-empty chunk from the left, seeded with its first element.
pub open spec fn spec_chunk_fold<T, C: Combiner<T>>(f: &C, chunk: Seq<T>) -> T
    recommends
        chunk.len() >= 1,
{
    spec_fold(f, chunk.first(), chunk.drop_first())
}

/// The per-chunk stage-one folds of a chunked reduction.
pub open spec fn chunk_folds<T, C: Combiner<T>>(f: &C, chunks: Seq<Seq<T>>) -> Seq<T> {
    chunks.map_values(|c: Seq<T>| spec_chunk_fold(f, c))
}

/// What the two-stage reduction over the given chunks returns: stage one
/// folds every chunk from its own first element; stage two folds the chunk
/// results from the left, seeded with the initializer if one was given and
/// with the first chunk's result otherwise.
pub open spec fn spec_reduce<T, C: Combiner<T>>(f: &C, chunks: Seq<Seq<T>>, init: Option<T>) -> T
    recommends
        chunks.len() >= 1,
{
    let folds = chunk_folds(f, chunks);
    match init {
        Some(e) => spec_fold(f, e, folds),
        None => spec_fold(f, folds.first(), folds.drop_first()),
    }
}

/// Fold one non-empty chunk from the left, seeded with its first element.
pub fn fold_chunk<T, C: Combiner<T>>(f: &C, chunk: Vec<T>) -> (r: T)
    requires
        chunk@.len() >= 1,
    ensures
        r == spec_chunk_fold(f, chunk@),
{
    let ghost all = chunk@;
    let mut rest = chunk;
    let mut acc = rest.remove(0);
    while rest.len() > 0
        invariant
            spec_fold(f, acc, rest@) == spec_chunk_fold(f, all),
        decreases rest@.len(),
    {
        let t = rest.remove(0);
        acc = f.combine(acc, t);
    }
    acc
}

/// Fold a vector from the left, starting from `init`.
pub fn fold_vec<T, C: Combiner<T>>(f: &C, init: T, items: Vec<T>) -> (r: T)
    ensures
        r == spec_fold(f, init, items@),
{
    let ghost all = items@;
    let mut rest = items;
    let mut acc = init;
    while rest.len() > 0
        invariant
            spec_fold(f, acc, rest@) == spec_fold(f, init, all),
        decreases rest@.len(),
    {
        let t = rest.remove(0);
        acc = f.combine(acc, t);
    }
    acc
}

/// Relies on rayon's `into_par_iter().map(..).collect::<Vec<_>>()`: the
/// closure is applied to each chunk and the per-chunk folds are collected in
/// chunk order. The closure only calls the verified `fold_chunk`.
#[verifier::external_body]
fn par_fold_chunks<T, C>(f: &C, chunks: Vec<Vec<T>>) -> (r: Vec<T>)
    where
        T: Send,
        C: Combiner<T> + Sync,
    requires
        forall|i: int| 0 <= i < chunks@.len() ==> (#[trigger] chunks@[i])@.len() >= 1,
    ensures
        r@.len() == chunks@.len(),
        forall|i: int| 0 <= i < r@.len() ==> #[trigger] r@[i] == spec_chunk_fold(f, chunks@[i]@),
{
    chunks.into_par_iter().map(|c| fold_chunk(f, c)).collect()
}

/// Two-stage reduction of `items` under the combiner `f`, chunked by
/// `chunk_size` (or the derived default) across the worker pool. An empty
/// input returns the initializer, or a `ReduceEmpty` error when none was
/// given; a non-empty input always reduces, to exactly the two-stage fold of
/// its chunk partition.
pub fn parallel_reduce<T, C>(f: &C, items: Vec<T>, initializer: Option<T>, chunk_size: Option<
    usize,
>) -> (r: Result<T, ParallelError>)
    where
        T: Send,
        C: Combiner<T> + Sync,
    requires
        chunk_size matches Some(s) ==> s >= 1,
    ensures
        items@.len() == 0 && initializer is None ==> (r matches Err(e) && e.kind
            == ErrorKind::ReduceEmpty),
        items@.len() == 0 && initializer is Some ==> r == Ok::<T, ParallelError>(initializer->0),
        items@.len() >= 1 ==> r is Ok,
        items@.len() >= 1 && chunk_size is Some ==> r == Ok::<T, ParallelError>(
            spec_reduce(f, spec_chunks(items@, chunk_size->0 as int), initializer),
        ),
        items@.len() >= 1 && chunk_size is None ==> exists|size: int|
            size >= 1 && r == Ok::<T, ParallelError>(
                spec_reduce(f, #[trigger] spec_chunks(items@, size), initializer),
            ),
{
    let ghost all = items@;
    if items.len() == 0 {
        return match initializer {
            Some(e0) => Ok(e0),
            None => Err(ParallelError::new(ErrorKind::ReduceEmpty)),
        };
    }
    let size = match chunk_size {
        Some(s) => s,
        None => {
            let workers = current_worker_count();
            derive_chunk_size(items.len(), workers)
        },
    };
    let chunks = split_into_chunks(items, size);
    let ghost cv = chunks_view(chunks@);
    proof {
        if cv.len() == 0 {
            assert(cv.flatten() =~= Seq::<T>::empty());
        }
    }
    let mut folds = par_fold_chunks(f, chunks);
    proof {
        assert(folds@ =~= chunk_folds(f, cv));
    }
    let result = match initializer {
        Some(e0) => fold_vec(f, e0, folds),
        None => {
            let ghost pre = folds@;
            let first = folds.remove(0);
            proof {
                assert(folds@ =~= pre.drop_first());
            }
            fold_vec(f, first, folds)
        },
    };
    Ok(result)
}

/// The combiner `f` is associative.
pub open spec fn combiner_associative<T, C: Combiner<T>>(f: &C) -> bool {
    forall|a: T, b: T, c: T|
        #[trigger] f.spec_combine(f.spec_combine(a, b), c) == f.spec_combine(
            a,
            f.spec_combine(b, c),
        )
}

/// Folding a concatenation is folding the first part, then the second.
proof fn lemma_spec_fold_concat<T, C: Combiner<T>>(f: &C, init: T, s1: Seq<T>, s2: Seq<T>)
    ensures
        spec_fold(f, init, s1 + s2) == spec_fold(f, spec_fold(f, init, s1), s2),
    decreases s1.len(),
{
    if s1.len() == 0 {
        assert(s1 + s2 =~= s2);
    } else {
        assert((s1 + s2).first() == s1.first());
        assert((s1 + s2).drop_first() =~= s1.drop_first() + s2);
        lemma_spec_fold_concat(f, f.spec_combine(init, s1.first()), s1.drop_first(), s2);
    }
}

/// For an associative combiner, an accumulated operand hoists out of a fold.
proof fn lemma_spec_fold_hoist<T, C: Combiner<T>>(f: &C, a: T, b: T, s: Seq<T>)
    requires
        combiner_associative(f),
    ensures
        spec_fold(f, f.spec_combine(a, b), s) == f.spec_combine(a, spec_fold(f, b, s)),
    decreases s.len(),
{
    if s.len() > 0 {
        assert(f.spec_combine(f.spec_combine(a, b), s.first()) == f.spec_combine(
            a,
            f.spec_combine(b, s.first()),
        ));
        lemma_spec_fold_hoist(f, a, f.spec_combine(b, s.first()), s.drop_first());
    }
}

/// For an associative combiner, folding the per-chunk folds equals folding
/// the concatenated chunks.
proof fn lemma_folds_flat<T, C: Combiner<T>>(f: &C, chunks: Seq<Seq<T>>, e: T)
    requires
        combiner_associative(f),
        forall|j: int| 0 <= j < chunks.len() ==> (#[trigger] chunks[j]).len() >= 1,
    ensures
        spec_fold(f, e, chunk_folds(f, chunks)) == spec_fold(f, e, chunks.flatten()),
    decreases chunks.len(),
{
    if chunks.len() == 0 {
        assert(chunk_folds(f, chunks) =~= Seq::<T>::empty());
        assert(chunks.flatten() =~= Seq::<T>::empty());
    } else {
        let c0 = chunks.first();
        let folds = chunk_folds(f, chunks);
        assert(folds.first() == spec_chunk_fold(f, c0));
        assert(folds.drop_first() =~= chunk_folds(f, chunks.drop_first()));
        let e1 = f.spec_combine(e, spec_chunk_fold(f, c0));
        lemma_spec_fold_hoist(f, e, c0.first(), c0.drop_first());
        assert(spec_fold(f, e, c0) == e1);
        lemma_folds_flat(f, chunks.drop_first(), e1);
        assert(chunks.flatten() == c0 + chunks.drop_first().flatten());
        lemma_spec_fold_concat(f, e, c0, chunks.drop_first().flatten());
    }
}

/// Every chunk of a partition is non-empty, and a non-empty input yields at
/// least one chunk.
pub proof fn lemma_spec_chunks_wf<T>(items: Seq<T>, size: int)
    requires
        size >= 1,
    ensures
        forall|j: int|
            0 <= j < spec_chunks(items, size).len() ==> (#[trigger] spec_chunks(items, size)[j]).len()
                >= 1,
        items.len() >= 1 ==> spec_chunks(items, size).len() >= 1,
    decreases items.len(),
{
    if items.len() > size {
        lemma_spec_chunks_wf(items.skip(size), size);
        assert forall|j: int| 0 <= j < spec_chunks(items, size).len() implies (#[trigger] spec_chunks(
            items,
            size,
        )[j]).len() >= 1 by {
            if j > 0 {
                assert(spec_chunks(items, size)[j] == spec_chunks(items.skip(size), size)[j - 1]);
            }
        }
    }
}

/// The law of associative reduction: for an associative combiner, the
/// two-stage chunked reduction over any chunk partition of the input is the
/// plain left fold of the whole input — seeded with the initializer when one
/// is given, and with the input's first element otherwise. In particular,
/// re-associating the reduction across chunks never changes its result.
pub proof fn lemma_reduce_associative<T, C: Combiner<T>>(
    f: &C,
    items: Seq<T>,
    init: Option<T>,
    size: int,
)
    requires
        combiner_associative(f),
        size >= 1,
        items.len() >= 1,
    ensures
        init matches Some(e) ==> spec_reduce(f, spec_chunks(items, size), init) == spec_fold(
            f,
            e,
            items,
        ),
        init is None ==> spec_reduce(f, spec_chunks(items, size), init) == spec_chunk_fold(
            f,
            items,
        ),
{
    let chunks = spec_chunks(items, size);
    lemma_spec_chunks_wf(items, size);
    lemma_spec_chunks_flatten(items, size);
    let folds = chunk_folds(f, chunks);
    match init {
        Some(e) => {
            lemma_folds_flat(f, chunks, e);
        },
        None => {
            let c0 = chunks.first();
            assert(folds.first() == spec_chunk_fold(f, c0));
            assert(folds.drop_first() =~= chunk_folds(f, chunks.drop_first()));
            let rflat = chunks.drop_first().flatten();
            assert forall|j: int| 0 <= j < chunks.drop_first().len() implies (#[trigger] chunks.drop_first()[j]).len() >= 1 by {
                assert(chunks.drop_first()[j] == chunks[j + 1]);
            }
            lemma_folds_flat(f, chunks.drop_first(), spec_chunk_fold(f, c0));
            assert(chunks.flatten() == c0 + rflat);
            assert(items.first() == c0.first());
            assert(items.drop_first() =~= c0.drop_first() + rflat);
            lemma_spec_fold_concat(f, c0.first(), c0.drop_first(), rflat);
        },
    }
}

} // verus!
