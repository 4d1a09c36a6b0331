//! The task executor over the worker pool: single submissions run
//! immediately, and `map` fans the items out across the pool's threads,
//! returning results in input order.

use vstd::prelude::*;

use crate::callable::{task_result_matches, Mapper, TaskError};
use crate::combinators::current_worker_count;
use crate::error::{ErrorKind, ParallelError};
use crate::retry::UnreliableOp;
use rayon::prelude::IntoParallelRefIterator;
use rayon::prelude::ParallelIterator;

verus! {

/// A fixed-size pool of worker threads that runs submitted callables. The
/// worker budget is bookkeeping over the process-wide pool the dispatch
/// wrapper uses; which thread runs which item never shows in the results,
/// whose order is pinned to the input either way.
pub struct Executor {
    pub max_workers: usize,
    pub active: bool,
}

impl Executor {
    /// Build an executor with the given worker budget, or one worker per
    /// pool thread.
    pub fn new(max_workers: Option<usize>) -> (r: Executor)
        requires
            max_workers matches Some(w) ==> w >= 1,
        ensures
            r.active,
            r.max_workers >= 1,
            max_workers matches Some(w) ==> r.max_workers == w,
    {
        let workers = match max_workers {
            Some(w) => w,
            None => current_worker_count(),
        };
        Executor { max_workers: workers, active: true }
    }

    /// Run one callable on its argument immediately, surfacing its error as
    /// `TaskFailed`.
    pub fn submit_with_args<T, U, M: Mapper<T, U>>(&self, f: &M, args: &T) -> (r: Result<
        U,
        ParallelError,
    >)
        ensures
            f.spec_call(*args) matches Ok(v) ==> r == Ok::<U, ParallelError>(v),
            f.spec_call(*args) matches Err(k) ==> (r matches Err(e) && e.kind
                == ErrorKind::TaskFailed && e.message@ == k),
    {
        match f.call(args) {
            Ok(v) => Ok(v),
            Err(e) => Err(ParallelError::with_message(ErrorKind::TaskFailed, e.kind_name)),
        }
    }

    /// Run one operation immediately, surfacing its error as `TaskFailed`.
    /// The operation decides the outcome; nothing more is promised of it.
    pub fn submit<F: UnreliableOp<R>, R>(&self, op: &mut F) -> (r: Result<R, ParallelError>)
        ensures
            r matches Err(e) ==> e.kind == ErrorKind::TaskFailed,
    {
        match op.call() {
            Ok(v) => Ok(v),
            Err(e) => Err(ParallelError::with_message(ErrorKind::TaskFailed, e.kind_name)),
        }
    }

    /// Run the callable over every item across the pool and collect the
    /// results in input order: the call succeeds exactly when every item
    /// maps successfully, and the first failing item's error kind surfaces
    /// as a `TaskFailed` error.
    pub fn map<T, U, M>(&self, f: &M, items: Vec<T>) -> (r: Result<Vec<U>, ParallelError>)
        where
            T: Sync,
            U: Send,
            M: Mapper<T, U> + Sync,
        ensures
            r matches Ok(out) ==> crate::combinators::maps_to(f, items@, out@),
            r matches Err(e) ==> e.kind == ErrorKind::TaskFailed
                && crate::combinators::some_call_fails(f, items@, e.message@),
            (forall|i: int|
                0 <= i < items@.len() ==> (#[trigger] f.spec_call(items@[i])) is Ok) ==> r is Ok,
    {
        let outcomes = par_map_items(f, &items);
        let mut out: Vec<U> = Vec::new();
        let mut j: usize = 0;
        let mut outcomes = outcomes;
        let n = outcomes.len();
        while j < n
            invariant
                n == outcomes@.len() + j,
                j <= items@.len(),
                n == items@.len(),
                out@.len() == j,
                forall|q: int|
                    0 <= q < j ==> f.spec_call(items@[q]) == Ok::<U, Seq<char>>(
                        #[trigger] out@[q],
                    ),
                forall|i: int|
                    0 <= i < outcomes@.len() ==> task_result_matches(
                        #[trigger] outcomes@[i],
                        f.spec_call(items@[j + i]),
                    ),
            decreases n - j,
        {
            let ghost pre = outcomes@;
            let head = outcomes.remove(0);
            proof {
                assert(task_result_matches(pre[0], f.spec_call(items@[j + 0])));
                assert forall|i: int| 0 <= i < outcomes@.len() implies #[trigger] outcomes@[i]
                    == pre[i + 1] by {
                    assert(outcomes@ == pre.remove(0));
                }
            }
            match head {
                Ok(v) => {
                    out.push(v);
                    j = j + 1;
                },
                Err(e) => {
                    proof {
                        assert(f.spec_call(items@[j as int]) == Err::<U, Seq<char>>(e.kind_name@));
                    }
                    return Err(ParallelError::with_message(ErrorKind::TaskFailed, e.kind_name));
                },
            }
        }
        Ok(out)
    }

    /// The pool's worker budget.
    pub fn get_worker_count(&self) -> (r: usize)
        ensures
            r == self.max_workers,
    {
        self.max_workers
    }

    /// Whether the pool is still accepting work.
    pub fn is_active(&self) -> (r: bool)
        ensures
            r == self.active,
    {
        self.active
    }

    /// Shut the pool down: it accepts no further work.
    pub fn shutdown(&mut self)
        ensures
            !final(self).active,
            final(self).max_workers == old(self).max_workers,
    {
        self.active = false;
    }
}

/// Relies on rayon's `par_iter().map(..).collect::<Vec<_>>()`: the closure
/// is applied to every item and the outcomes are collected in input order.
/// The closure only calls the trait method `call`, whose contract pins each
/// outcome.
#[verifier::external_body]
fn par_map_items<T, U, M>(f: &M, items: &Vec<T>) -> (r: Vec<Result<U, TaskError>>)
    where
        T: Sync,
        U: Send,
        M: Mapper<T, U> + Sync,
    ensures
        r@.len() == items@.len(),
        forall|i: int|
            0 <= i < r@.len() ==> task_result_matches(#[trigger] r@[i], f.spec_call(items@[i])),
{
    items.par_iter().map(|t| f.call(t)).collect()
}

} // verus!
