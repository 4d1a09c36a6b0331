//! High-level distributed operations over the cluster: map, filter, sort,
//! group-by and aggregate, plus a batch processor that feeds chunks through
//! the distributed executor's submission path.

use vstd::prelude::*;

use crate::callable::{Combiner, Mapper, Predicate};
use crate::chunking::{chunks_view, split_into_chunks};
use crate::cluster::ClusterManager;
use crate::combinators::{
    filter_chunk, lemma_flatten_contains, lemma_maps_to_concat, map_chunk, maps_to, pred_of,
    some_call_fails, spec_fold,
};
use crate::dist_executor::{cluster_map, distributed_reduce};
use crate::error::{ErrorKind, ParallelError};

verus! {

/// The high-level distributed operations.
pub struct DistributedOps;

impl DistributedOps {
    /// Map `f` over the items with automatic load balancing: the result is
    /// the in-order image of the input, and the call succeeds exactly when
    /// every item maps successfully.
    pub fn parallel_map<T, U, M: Mapper<T, U>>(
        f: &M,
        items: Vec<T>,
        cluster: &ClusterManager,
        chunk_size: Option<usize>,
    ) -> (r: Result<Vec<U>, ParallelError>)
        ensures
            r matches Ok(out) ==> maps_to(f, items@, out@),
            r matches Err(e) ==> e.kind == ErrorKind::TaskFailed && some_call_fails(
                f,
                items@,
                e.message@,
            ),
            (forall|i: int|
                0 <= i < items@.len() ==> (#[trigger] f.spec_call(items@[i])) is Ok) ==> r is Ok,
    {
        cluster_map(f, items, cluster, chunk_size)
    }

    /// Keep the items satisfying the predicate, preserving input order: the
    /// result is exactly the filtered subsequence of the input.
    pub fn parallel_filter<T, P: Predicate<T>>(f: &P, items: Vec<T>, cluster: &ClusterManager) -> (r:
        Vec<T>)
        ensures
            r@ == items@.filter(pred_of(f)),
    {
        let _ = cluster;
        filter_chunk(f, items)
    }

    /// Sort the items ascending: the result is an ordered permutation of the
    /// input.
    pub fn parallel_sort(items: Vec<i64>, cluster: &ClusterManager) -> (r: Vec<i64>)
        ensures
            forall|i: int, j: int| 0 <= i < j < r@.len() ==> #[trigger] r@[i] <= #[trigger] r@[j],
            r@.to_multiset() == items@.to_multiset(),
    {
        broadcast use vstd::seq_lib::group_to_multiset_ensures;

        let _ = cluster;
        let ghost all = items@;
        let mut rest = items;
        let mut out: Vec<i64> = Vec::new();
        while rest.len() > 0
            invariant
                out@.to_multiset().add(rest@.to_multiset()) == all.to_multiset(),
                forall|i: int, j: int|
                    0 <= i < j < out@.len() ==> #[trigger] out@[i] <= #[trigger] out@[j],
            decreases rest@.len(),
        {
            let ghost pre_rest = rest@;
            let x = rest.remove(0);
            proof {
                assert(rest@ =~= pre_rest.remove(0));
                vstd::seq_lib::to_multiset_remove(pre_rest, 0);
                assert(pre_rest.contains(pre_rest[0]));
            }
            let mut pos: usize = 0;
            while pos < out.len() && out[pos] <= x
                invariant
                    pos <= out@.len(),
                    forall|i: int| 0 <= i < pos ==> #[trigger] out@[i] <= x,
                decreases out@.len() - pos,
            {
                pos = pos + 1;
            }
            let ghost pre_out = out@;
            out.insert(pos, x);
            proof {
                assert(out@ =~= pre_out.take(pos as int) + seq![x] + pre_out.skip(pos as int));
                lemma_sorted_insert_multiset(pre_out, x, pos as int);
                assert forall|i: int, j: int|
                    0 <= i < j < out@.len() implies #[trigger] out@[i] <= #[trigger] out@[j] by {
                    if j < pos {
                        assert(out@[i] == pre_out[i]);
                        assert(out@[j] == pre_out[j]);
                    } else if i < pos && j > pos {
                        assert(out@[i] == pre_out[i]);
                        assert(out@[j] == pre_out[j - 1]);
                    } else if i == pos && j > pos {
                        assert(out@[j] == pre_out[j - 1]);
                    } else if j == pos && i < pos {
                        assert(out@[i] == pre_out[i]);
                    } else if i > pos {
                        assert(out@[i] == pre_out[i - 1]);
                        assert(out@[j] == pre_out[j - 1]);
                    }
                }
                assert(out@.to_multiset() =~= pre_out.to_multiset().insert(x));
                assert(pre_rest.to_multiset() =~= rest@.to_multiset().insert(x)) by {
                    vstd::seq_lib::to_multiset_contains(pre_rest, x);
                    assert(pre_rest.to_multiset().count(x) > 0);
                    assert(rest@.to_multiset() == pre_rest.to_multiset().remove(x));
                }
                assert(out@.to_multiset().add(rest@.to_multiset()) =~= all.to_multiset());
            }
        }
        proof {
            assert(rest@.to_multiset() =~= Seq::<i64>::empty().to_multiset());
            assert(out@.to_multiset() =~= all.to_multiset());
        }
        out
    }

    /// Group the items by their integer key, keys in first-occurrence order:
    /// each group is exactly the in-order subsequence of items carrying its
    /// key, and no key appears twice. The first failing key computation
    /// aborts the call.
    pub fn parallel_group_by<T, M: Mapper<T, i64>>(
        f: &M,
        items: Vec<T>,
        cluster: &ClusterManager,
    ) -> (r: Result<Vec<(i64, Vec<T>)>, ParallelError>)
        ensures
            r matches Ok(groups) ==> {
                &&& forall|a: int, b: int|
                    0 <= a < b < groups@.len() ==> (#[trigger] groups@[a]).0 != (
                    #[trigger] groups@[b]).0
                &&& forall|a: int|
                    0 <= a < groups@.len() ==> (#[trigger] groups@[a]).1@ == items@.filter(
                        key_pred(f, groups@[a].0),
                    )
            },
            r matches Err(e) ==> e.kind == ErrorKind::TaskFailed && some_call_fails(
                f,
                items@,
                e.message@,
            ),
    {
        broadcast use vstd::seq_lib::group_filter_ensures;

        let _ = cluster;
        let ghost all = items@;
        let mut rest = items;
        let mut groups: Vec<(i64, Vec<T>)> = Vec::new();
        let ghost mut done: int = 0;
        while rest.len() > 0
            invariant
                all == items@,
                0 <= done,
                done + rest@.len() == all.len(),
                rest@ == all.skip(done),
                forall|a: int, b: int|
                    0 <= a < b < groups@.len() ==> (#[trigger] groups@[a]).0 != (
                    #[trigger] groups@[b]).0,
                forall|a: int|
                    0 <= a < groups@.len() ==> (#[trigger] groups@[a]).1@ == all.take(done).filter(
                        key_pred(f, groups@[a].0),
                    ),
                forall|kk: i64| #[trigger]
                    no_group_for(groups@, kk) ==> all.take(done).filter(
                        key_pred(f, kk),
                    ).len() == 0,
            decreases rest@.len(),
        {
            proof {
                assert(all.skip(done)[0] == all[done]);
            }
            let item = rest.remove(0);
            proof {
                assert(rest@ =~= all.skip(done + 1));
                assert(all.take(done + 1) =~= all.take(done).push(all[done]));
            }
            let key = match f.call(&item) {
                Ok(k) => k,
                Err(e) => {
                    proof {
                        assert(f.spec_call(all[done]) == Err::<i64, Seq<char>>(e.kind_name@));
                    }
                    return Err(ParallelError::with_message(ErrorKind::TaskFailed, e.kind_name));
                },
            };
            // Find the group with this key, if one exists.
            let mut slot: Option<usize> = None;
            let mut g: usize = 0;
            let gn = groups.len();
            while g < gn && slot.is_none()
                invariant
                    g <= gn,
                    gn == groups@.len(),
                    match slot {
                        Some(k2) => k2 < gn && groups@[k2 as int].0 == key,
                        None => forall|q: int| 0 <= q < g ==> (#[trigger] groups@[q]).0 != key,
                    },
                decreases gn - g, (if slot is None {
                    1int
                } else {
                    0int
                }),
            {
                if groups[g].0 == key {
                    slot = Some(g);
                } else {
                    g = g + 1;
                }
            }
            let ghost pre_groups = groups@;
            match slot {
                Some(k2) => {
                    let (gk, mut members) = groups.remove(k2);
                    members.push(item);
                    groups.insert(k2, (gk, members));
                    proof {
                        assert(groups@ =~= pre_groups.update(k2 as int, groups@[k2 as int]));
                    }
                },
                None => {
                    let mut members: Vec<T> = Vec::new();
                    members.push(item);
                    groups.push((key, members));
                },
            }
            proof {
                let kp = key_pred(f, key);
                assert(f.spec_call(all[done]) == Ok::<i64, Seq<char>>(key));
                if slot is None {
                    assert(no_group_for(pre_groups, key));
                    assert(all.take(done).filter(kp).len() == 0);
                    assert(all.take(done).filter(kp) =~= Seq::<T>::empty());
                }
                assert forall|a: int| 0 <= a < groups@.len() implies (#[trigger] groups@[a]).1@
                    == all.take(done + 1).filter(key_pred(f, groups@[a].0)) by {
                    all.take(done).lemma_filter_push(all[done], key_pred(f, groups@[a].0));
                    if groups@[a].0 == key {
                        assert(kp(all[done]));
                    } else {
                        assert(!key_pred(f, groups@[a].0)(all[done]));
                        if a < pre_groups.len() {
                            assert(groups@[a].1@ == pre_groups[a].1@);
                        }
                    }
                }
                assert forall|kk: i64| #[trigger] no_group_for(groups@, kk) implies all.take(
                    done + 1,
                ).filter(key_pred(f, kk)).len() == 0 by {
                    assert forall|a: int|
                        0 <= a < pre_groups.len() implies (#[trigger] pre_groups[a]).0
                        != kk by {
                        assert(groups@[a].0 == pre_groups[a].0);
                    }
                    assert(no_group_for(pre_groups, kk));
                    match slot {
                        Some(k2) => {
                            assert(groups@[k2 as int].0 == key);
                        },
                        None => {
                            assert(groups@.last().0 == key);
                        },
                    }
                    assert(kk != key);
                    all.take(done).lemma_filter_push(all[done], key_pred(f, kk));
                    assert(!key_pred(f, kk)(all[done]));
                }
            }
            proof {
                done = done + 1;
            }
        }
        proof {
            assert(all.take(done) =~= all);
        }
        Ok(groups)
    }

    /// Aggregate the items from the left under `f`, seeded with the initial
    /// value when one is given and with the first item otherwise; an empty
    /// input with no initial value is a `ReduceEmpty` error.
    pub fn parallel_aggregate<T, C: Combiner<T>>(
        f: &C,
        items: Vec<T>,
        initial_value: Option<T>,
        cluster: &ClusterManager,
    ) -> (r: Result<T, ParallelError>)
        ensures
            items@.len() == 0 && initial_value is None ==> (r matches Err(e) && e.kind
                == ErrorKind::ReduceEmpty),
            items@.len() == 0 && initial_value is Some ==> r == Ok::<T, ParallelError>(
                initial_value->0,
            ),
            items@.len() >= 1 && initial_value is Some ==> r == Ok::<T, ParallelError>(
                spec_fold(f, initial_value->0, items@),
            ),
            items@.len() >= 1 && initial_value is None ==> r == Ok::<T, ParallelError>(
                spec_fold(f, items@.first(), items@.drop_first()),
            ),
    {
        distributed_reduce(f, items, initial_value, cluster)
    }
}

/// No group carries the key `kk`.
pub open spec fn no_group_for<T>(groups: Seq<(i64, Vec<T>)>, kk: i64) -> bool {
    forall|a: int| 0 <= a < groups.len() ==> (#[trigger] groups[a]).0 != kk
}

/// Whether an item's key computation yields exactly `key`.
pub open spec fn key_pred<T, M: Mapper<T, i64>>(f: &M, key: i64) -> spec_fn(T) -> bool {
    |t: T| f.spec_call(t) == Ok::<i64, Seq<char>>(key)
}

/// Inserting into a sorted position adds exactly one occurrence to the
/// multiset.
proof fn lemma_sorted_insert_multiset(s: Seq<i64>, x: i64, pos: int)
    requires
        0 <= pos <= s.len(),
    ensures
        (s.take(pos) + seq![x] + s.skip(pos)).to_multiset() == s.to_multiset().insert(x),
{
    broadcast use vstd::seq_lib::group_to_multiset_ensures;

    vstd::seq_lib::lemma_multiset_commutative(s.take(pos) + seq![x], s.skip(pos));
    vstd::seq_lib::lemma_multiset_commutative(s.take(pos), seq![x]);
    vstd::seq_lib::lemma_multiset_commutative(s.take(pos), s.skip(pos));
    assert(s.take(pos) + s.skip(pos) =~= s);
    assert(seq![x] =~= Seq::<i64>::empty().push(x));
    assert((s.take(pos) + seq![x] + s.skip(pos)).to_multiset() =~= s.to_multiset().insert(x));
}

/// Feeds data through the executor's submission path in fixed-size batches,
/// applying the callable to every item in order.
pub struct DistributedBatchProcessor {
    pub cluster: ClusterManager,
    pub batch_size: usize,
}

impl DistributedBatchProcessor {
    /// Build a processor; batches default to one hundred items.
    pub fn new(cluster: ClusterManager, batch_size: Option<usize>) -> (r: DistributedBatchProcessor)
        requires
            batch_size matches Some(b) ==> b >= 1,
        ensures
            r.cluster == cluster,
            batch_size matches Some(b) ==> r.batch_size == b,
            batch_size is None ==> r.batch_size == 100,
            r.batch_size >= 1,
    {
        DistributedBatchProcessor {
            cluster,
            batch_size: match batch_size {
                Some(b) => b,
                None => 100,
            },
        }
    }

    /// Process the data in batches of `batch_size`, in order: the result is
    /// the in-order image of the data under `f`, and the call succeeds
    /// exactly when every item maps successfully. The embedding reports
    /// progress between batches.
    pub fn process_batches<T, U, M: Mapper<T, U>>(&self, f: &M, data: Vec<T>) -> (r: Result<
        Vec<U>,
        ParallelError,
    >)
        requires
            self.batch_size >= 1,
        ensures
            r matches Ok(out) ==> maps_to(f, data@, out@),
            r matches Err(e) ==> e.kind == ErrorKind::TaskFailed && some_call_fails(
                f,
                data@,
                e.message@,
            ),
            (forall|i: int|
                0 <= i < data@.len() ==> (#[trigger] f.spec_call(data@[i])) is Ok) ==> r is Ok,
    {
        let ghost all = data@;
        let batches = split_into_chunks(data, self.batch_size);
        let ghost cv = chunks_view(batches@);
        let mut out: Vec<U> = Vec::new();
        let mut rest = batches;
        let mut j: usize = 0;
        let n = rest.len();
        while j < n
            invariant
                all == data@,
                n == rest@.len() + j,
                j <= cv.len(),
                cv.len() == n,
                cv.flatten() == all,
                maps_to(f, cv.take(j as int).flatten(), out@),
                forall|i: int| 0 <= i < rest@.len() ==> (#[trigger] rest@[i])@ == cv[j + i],
            decreases n - j,
        {
            let ghost pre = rest@;
            let batch = rest.remove(0);
            proof {
                assert(pre[0]@ == cv[j + 0]);
                assert forall|i: int| 0 <= i < rest@.len() implies (#[trigger] rest@[i])@ == cv[j + 1
                    + i] by {
                    assert(rest@ == pre.remove(0));
                    assert(rest@[i] == pre[i + 1]);
                }
            }
            match map_chunk(f, &batch) {
                Ok(mut produced) => {
                    proof {
                        cv.take(j as int).lemma_flatten_push(cv[j as int]);
                        assert(cv.take(j + 1 as int) =~= cv.take(j as int).push(cv[j as int]));
                        lemma_maps_to_concat(f, cv.take(j as int).flatten(), cv[j as int], out@, produced@);
                    }
                    out.append(&mut produced);
                    j = j + 1;
                },
                Err(e) => {
                    proof {
                        assert(some_call_fails(f, cv[j as int], e.kind_name@));
                        let k = choose|k: int|
                            0 <= k < cv[j as int].len() && #[trigger] f.spec_call(cv[j as int][k])
                                == Err::<U, Seq<char>>(e.kind_name@);
                        lemma_flatten_contains(cv, j as int, k);
                        assert(all.contains(cv[j as int][k]));
                        let idx = choose|i: int| 0 <= i < all.len() && all[i] == cv[j as int][k];
                        assert(f.spec_call(all[idx]) == Err::<U, Seq<char>>(e.kind_name@));
                        assert(some_call_fails(f, all, e.kind_name@));
                    }
                    return Err(ParallelError::with_message(ErrorKind::TaskFailed, e.kind_name));
                },
            }
        }
        proof {
            assert(cv.take(cv.len() as int) =~= cv);
        }
        Ok(out)
    }
}

} // verus!
