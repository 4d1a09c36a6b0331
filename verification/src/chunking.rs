//! The chunking policy of the combinator kernel: derive a chunk size from the
//! input length and the worker count, and partition an input vector into
//! contiguous chunks whose concatenation is the original input.

use vstd::prelude::*;

verus! {

/// The length threshold above which the chunk size is pinned.
pub const CHUNK_SIZE_CAP: usize = 1000;

/// The chunk size the kernel derives when the caller does not pass one:
/// below the threshold, the input is split evenly across the workers
/// (at least one item per chunk); at or above it, chunks hold 1000 items.
pub open spec fn spec_chunk_size(len: int, workers: int) -> int {
    if len < 1000 {
        if len / workers >= 1 {
            len / workers
        } else {
            1
        }
    } else {
        1000
    }
}

/// How many chunks a partition of `len` items into chunks of `size` yields:
/// `len / size`, rounded up.
pub open spec fn spec_chunk_count(len: int, size: int) -> int {
    (len + size - 1) / size
}

/// Derive the default chunk size for an input of length `len` split across
/// `workers` workers.
pub fn derive_chunk_size(len: usize, workers: usize) -> (r: usize)
    requires
        workers >= 1,
    ensures
        r == spec_chunk_size(len as int, workers as int),
        r >= 1,
{
    if len < CHUNK_SIZE_CAP {
        let per_worker = len / workers;
        if per_worker >= 1 {
            per_worker
        } else {
            1
        }
    } else {
        CHUNK_SIZE_CAP
    }
}

/// The sequence-of-sequences view of a vector of chunks.
pub open spec fn chunks_view<T>(chunks: Seq<Vec<T>>) -> Seq<Seq<T>> {
    chunks.map_values(|c: Vec<T>| c@)
}

/// The partition of `items` into contiguous chunks of `size` items each,
/// the last chunk possibly shorter: what `split_into_chunks` returns.
pub open spec fn spec_chunks<T>(items: Seq<T>, size: int) -> Seq<Seq<T>>
    decreases items.len(),
{
    if size < 1 || items.len() <= 0 {
        Seq::empty()
    } else if items.len() <= size {
        seq![items]
    } else {
        seq![items.take(size)] + spec_chunks(items.skip(size), size)
    }
}

/// Concatenating the chunks of a partition gives back the partitioned items.
pub proof fn lemma_spec_chunks_flatten<T>(items: Seq<T>, size: int)
    requires
        size >= 1,
    ensures
        spec_chunks(items, size).flatten() =~= items,
    decreases items.len(),
{
    if items.len() <= 0 {
        assert(spec_chunks(items, size).flatten() =~= items);
    } else if items.len() <= size {
        seq![items].lemma_flatten_one_element();
    } else {
        lemma_spec_chunks_flatten(items.skip(size), size);
        vstd::seq_lib::lemma_flatten_concat(
            seq![items.take(size)],
            spec_chunks(items.skip(size), size),
        );
        seq![items.take(size)].lemma_flatten_one_element();
    }
}

/// Partition `items` into contiguous chunks of `size` items each (the last
/// chunk may be shorter, but is never empty). Concatenating the chunks in
/// order gives back exactly the input; a chunk size at or above the input
/// length yields exactly one chunk.
pub fn split_into_chunks<T>(items: Vec<T>, size: usize) -> (r: Vec<Vec<T>>)
    requires
        size >= 1,
    ensures
        chunks_view(r@) =~= spec_chunks(items@, size as int),
        chunks_view(r@).flatten() == items@,
        r@.len() == spec_chunk_count(items@.len() as int, size as int),
        forall|i: int| 0 <= i < r@.len() ==> 1 <= (#[trigger] r@[i])@.len() <= size,
        forall|i: int| 0 <= i < r@.len() - 1 ==> (#[trigger] r@[i])@.len() == size,
        items@.len() == 0 ==> r@.len() == 0,
        items@.len() >= 1 && size >= items@.len() ==> r@.len() == 1,
{
    let ghost all = items@;
    let mut rest = items;
    let mut chunks: Vec<Vec<T>> = Vec::new();
    proof {
        assert(chunks@.len() * size == 0) by (nonlinear_arith)
            requires
                chunks@.len() == 0,
        ;
    }
    while rest.len() > size
        invariant
            size >= 1,
            spec_chunks(all, size as int) =~= chunks_view(chunks@) + spec_chunks(rest@, size as int),
            chunks_view(chunks@).flatten() + rest@ =~= all,
            chunks@.len() * size + rest@.len() == all.len(),
            rest@.len() >= 1 || chunks@.len() == 0,
            forall|i: int| 0 <= i < chunks@.len() ==> (#[trigger] chunks@[i])@.len() == size,
        decreases rest@.len(),
    {
        let tail = rest.split_off(size);
        proof {
            chunks_view(chunks@).lemma_flatten_push(rest@);
            assert(chunks_view(chunks@.push(rest)) =~= chunks_view(chunks@).push(rest@));
            assert((chunks@.len() + 1) * size == chunks@.len() * size + size) by (nonlinear_arith);
        }
        chunks.push(rest);
        rest = tail;
    }
    let ghost m = chunks@.len() as int;
    let ghost tail_len = rest@.len() as int;
    if rest.len() > 0 {
        proof {
            chunks_view(chunks@).lemma_flatten_push(rest@);
            assert(chunks_view(chunks@.push(rest)) =~= chunks_view(chunks@).push(rest@));
        }
        chunks.push(rest);
    }
    proof {
        if all.len() == 0 {
            assert(chunks_view(chunks@).flatten() =~= all);
            assert((0 + size - 1) / (size as int) == 0) by (nonlinear_arith)
                requires
                    size >= 1,
            ;
        } else {
            lemma_chunk_count_arith(all.len() as int, size as int, m, tail_len);
        }
    }
    chunks
}

/// Arithmetic fact behind the chunk count: if `m` full chunks of `size` items
/// are followed by a final chunk of `r` items, `1 <= r <= size`, then the
/// total chunk count `m + 1` is the length divided by `size`, rounded up.
proof fn lemma_chunk_count_arith(len: int, size: int, m: int, r: int)
    requires
        size >= 1,
        m >= 0,
        1 <= r <= size,
        len == m * size + r,
    ensures
        m + 1 == spec_chunk_count(len, size),
{
    assert((m * size + r + size - 1) / size == m + 1) by (nonlinear_arith)
        requires
            size >= 1,
            m >= 0,
            1 <= r <= size,
    ;
}

} // verus!
