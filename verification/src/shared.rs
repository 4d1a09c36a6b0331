//! Shared containers: a bounded shared array of 64-bit integers, a bounded
//! shared queue, and a shared counter with wrapping arithmetic. Each holds
//! state that concurrent callers share under a lock or atomics; the
//! embedding wraps a value of these types in its own lock to share it.

use vstd::prelude::*;

use crate::callable::Mapper;
use crate::combinators::map_chunk;
use crate::error::{ErrorKind, ParallelError};

verus! {

/// The sum of a sequence of 64-bit integers, exact, as an unbounded integer.
pub open spec fn spec_sum(s: Seq<i64>) -> int
    decreases s.len(),
{
    if s.len() == 0 {
        0
    } else {
        spec_sum(s.drop_last()) + s.last()
    }
}

/// A bounded array of 64-bit integers: appends past the capacity are
/// rejected, reads and writes outside the length are rejected.
pub struct SharedArray {
    pub data: Vec<i64>,
    pub capacity: usize,
}

impl SharedArray {
    /// The array never outgrows its capacity.
    pub open spec fn wf(&self) -> bool {
        self.data@.len() <= self.capacity
    }

    /// An empty array with the given capacity.
    pub fn new(capacity: usize) -> (r: SharedArray)
        ensures
            r.wf(),
            r.capacity == capacity,
            r.data@.len() == 0,
    {
        SharedArray { data: Vec::new(), capacity }
    }

    /// An array holding the given data, with capacity equal to its length.
    pub fn from_data(data: Vec<i64>) -> (r: SharedArray)
        ensures
            r.wf(),
            r.data@ == data@,
            r.capacity == data@.len(),
    {
        let capacity = data.len();
        SharedArray { data, capacity }
    }

    /// How many values the array holds.
    pub fn len(&self) -> (r: usize)
        ensures
            r == self.data@.len(),
    {
        self.data.len()
    }

    /// Whether the array holds no values.
    pub fn is_empty(&self) -> (r: bool)
        ensures
            r == (self.data@.len() == 0),
    {
        self.data.len() == 0
    }

    /// The value at the index, or `IndexOutOfBounds` past the length.
    pub fn get(&self, index: usize) -> (r: Result<i64, ParallelError>)
        ensures
            index < self.data@.len() ==> r == Ok::<i64, ParallelError>(self.data@[index as int]),
            index >= self.data@.len() ==> (r matches Err(e) && e.kind
                == ErrorKind::IndexOutOfBounds),
    {
        if index < self.data.len() {
            Ok(self.data[index])
        } else {
            Err(ParallelError::new(ErrorKind::IndexOutOfBounds))
        }
    }

    /// Overwrite the value at the index, or `IndexOutOfBounds` past the
    /// length.
    pub fn set(&mut self, index: usize, value: i64) -> (r: Result<(), ParallelError>)
        requires
            old(self).wf(),
        ensures
            final(self).wf(),
            final(self).capacity == old(self).capacity,
            index < old(self).data@.len() ==> r is Ok && final(self).data@ == old(self).data@.update(index as int, value),
            index >= old(self).data@.len() ==> (r matches Err(e) && e.kind
                == ErrorKind::IndexOutOfBounds) && final(self).data@ == old(self).data@,
    {
        if index < self.data.len() {
            self.data.set(index, value);
            Ok(())
        } else {
            Err(ParallelError::new(ErrorKind::IndexOutOfBounds))
        }
    }

    /// Append one value, or `CapacityExceeded` when the array is full.
    pub fn append(&mut self, value: i64) -> (r: Result<(), ParallelError>)
        requires
            old(self).wf(),
        ensures
            final(self).wf(),
            final(self).capacity == old(self).capacity,
            old(self).data@.len() < old(self).capacity ==> r is Ok && final(self).data@ == old(self).data@.push(value),
            old(self).data@.len() >= old(self).capacity ==> (r matches Err(e) && e.kind
                == ErrorKind::CapacityExceeded) && final(self).data@ == old(self).data@,
    {
        if self.data.len() < self.capacity {
            self.data.push(value);
            Ok(())
        } else {
            Err(ParallelError::new(ErrorKind::CapacityExceeded))
        }
    }

    /// Append many values, or `CapacityExceeded` (and no change) when they
    /// would not all fit.
    pub fn extend(&mut self, values: Vec<i64>) -> (r: Result<(), ParallelError>)
        requires
            old(self).wf(),
        ensures
            final(self).wf(),
            final(self).capacity == old(self).capacity,
            old(self).data@.len() + values@.len() <= old(self).capacity ==> r is Ok && final(self).data@ == old(self).data@ + values@,
            old(self).data@.len() + values@.len() > old(self).capacity ==> (r matches Err(e)
                && e.kind == ErrorKind::CapacityExceeded) && final(self).data@ == old(self).data@,
    {
        if values.len() <= self.capacity - self.data.len() {
            let mut incoming = values;
            self.data.append(&mut incoming);
            Ok(())
        } else {
            Err(ParallelError::new(ErrorKind::CapacityExceeded))
        }
    }

    /// Empty the array.
    pub fn clear(&mut self)
        ensures
            final(self).wf(),
            final(self).capacity == old(self).capacity,
            final(self).data@.len() == 0,
    {
        self.data.clear();
    }

    /// A copy of all values, in order.
    pub fn to_list(&self) -> (r: Vec<i64>)
        ensures
            r@ == self.data@,
    {
        let mut out: Vec<i64> = Vec::new();
        let mut i: usize = 0;
        while i < self.data.len()
            invariant
                i <= self.data@.len(),
                out@ =~= self.data@.take(i as int),
            decreases self.data@.len() - i,
        {
            out.push(self.data[i]);
            proof {
                assert(self.data@.take(i + 1 as int) =~= self.data@.take(i as int).push(
                    self.data@[i as int],
                ));
            }
            i = i + 1;
        }
        proof {
            assert(self.data@.take(self.data@.len() as int) =~= self.data@);
        }
        out
    }

    /// A copy of the values from `start` up to `end` (or the length), or
    /// `IndexOutOfBounds` for invalid bounds.
    pub fn slice(&self, start: usize, end: Option<usize>) -> (r: Result<Vec<i64>, ParallelError>)
        ensures
            ({
                let stop = match end {
                    Some(e) => e as int,
                    None => self.data@.len() as int,
                };
                &&& (start <= stop <= self.data@.len()) ==> (r matches Ok(v) && v@
                    == self.data@.subrange(start as int, stop))
                &&& !(start <= stop <= self.data@.len()) ==> (r matches Err(e) && e.kind
                    == ErrorKind::IndexOutOfBounds)
            }),
    {
        let stop = match end {
            Some(e) => e,
            None => self.data.len(),
        };
        if start > stop || stop > self.data.len() {
            return Err(ParallelError::new(ErrorKind::IndexOutOfBounds));
        }
        let mut out: Vec<i64> = Vec::new();
        let mut i: usize = start;
        while i < stop
            invariant
                start <= i <= stop <= self.data@.len(),
                out@ =~= self.data@.subrange(start as int, i as int),
            decreases stop - i,
        {
            out.push(self.data[i]);
            proof {
                assert(self.data@.subrange(start as int, i + 1 as int) =~= self.data@.subrange(
                    start as int,
                    i as int,
                ).push(self.data@[i as int]));
            }
            i = i + 1;
        }
        Ok(out)
    }

    /// The exact sum of all values (accumulated beyond 64 bits, so no
    /// overflow can occur).
    pub fn sum(&self) -> (r: i128)
        ensures
            r == spec_sum(self.data@),
    {
        let mut total: i128 = 0;
        let mut i: usize = 0;
        let n = self.data.len();
        while i < n
            invariant
                i <= n,
                n == self.data@.len(),
                total == spec_sum(self.data@.take(i as int)),
                -0x8000000000000000i128 * (i as i128) <= total <= 0x7fffffffffffffffi128 * (
                i as i128),
            decreases n - i,
        {
            proof {
                assert(self.data@.take(i + 1 as int).drop_last() =~= self.data@.take(i as int));
                assert(self.data@.take(i + 1 as int).last() == self.data@[i as int]);
                assert(-0x8000000000000000i128 * ((i + 1) as i128) <= total + self.data@[i as int]
                    <= 0x7fffffffffffffffi128 * ((i + 1) as i128)) by (nonlinear_arith)
                    requires
                        -0x8000000000000000i128 * (i as i128) <= total <= 0x7fffffffffffffffi128 * (
                        i as i128),
                        -0x8000000000000000 <= self.data@[i as int] <= 0x7fffffffffffffff,
                ;
                assert((i + 1) as i128 <= 0x10000000000000000i128);
                assert(-0x8000000000000000i128 * 0x10000000000000000i128 <= -0x8000000000000000i128
                    * ((i + 1) as i128)) by (nonlinear_arith)
                    requires
                        1 <= (i + 1) as i128 <= 0x10000000000000000i128,
                ;
                assert(0x7fffffffffffffffi128 * ((i + 1) as i128) <= 0x7fffffffffffffffi128
                    * 0x10000000000000000i128) by (nonlinear_arith)
                    requires
                        1 <= (i + 1) as i128 <= 0x10000000000000000i128,
                ;
            }
            total = total + (self.data[i] as i128);
            i = i + 1;
        }
        proof {
            assert(self.data@.take(n as int) =~= self.data@);
        }
        total
    }

    /// Map a callable over the array's values, in order; the first error
    /// aborts and surfaces as `TaskFailed`.
    pub fn parallel_map<M: Mapper<i64, i64>>(&self, f: &M) -> (r: Result<Vec<i64>, ParallelError>)
        ensures
            r matches Ok(out) ==> crate::combinators::maps_to(f, self.data@, out@),
            r matches Err(e) ==> e.kind == ErrorKind::TaskFailed && crate::combinators::some_call_fails(
                f,
                self.data@,
                e.message@,
            ),
    {
        match map_chunk(f, &self.data) {
            Ok(out) => Ok(out),
            Err(e) => Err(ParallelError::with_message(ErrorKind::TaskFailed, e.kind_name)),
        }
    }
}

/// A first-in first-out queue with an optional size bound.
pub struct SharedQueue<T> {
    pub data: Vec<T>,
    pub max_size: Option<usize>,
}

impl<T> SharedQueue<T> {
    /// The queue never outgrows its bound.
    pub open spec fn wf(&self) -> bool {
        self.max_size matches Some(m) ==> self.data@.len() <= m
    }

    /// An empty queue, bounded when a size is given.
    pub fn new(max_size: Option<usize>) -> (r: SharedQueue<T>)
        ensures
            r.wf(),
            r.max_size == max_size,
            r.data@.len() == 0,
    {
        SharedQueue { data: Vec::new(), max_size }
    }

    /// Enqueue one item at the back, or `CapacityExceeded` when the queue is
    /// full.
    pub fn put(&mut self, item: T) -> (r: Result<(), ParallelError>)
        requires
            old(self).wf(),
        ensures
            final(self).wf(),
            final(self).max_size == old(self).max_size,
            ({
                let full = old(self).max_size matches Some(m) && old(self).data@.len() >= m;
                &&& !full ==> r is Ok && final(self).data@ == old(self).data@.push(item)
                &&& full ==> (r matches Err(e) && e.kind == ErrorKind::CapacityExceeded) && final(self).data@ == old(self).data@
            }),
    {
        let full = match self.max_size {
            Some(m) => self.data.len() >= m,
            None => false,
        };
        if full {
            Err(ParallelError::new(ErrorKind::CapacityExceeded))
        } else {
            self.data.push(item);
            Ok(())
        }
    }

    /// Dequeue the front item, or `NotFound` when the queue is empty.
    pub fn get(&mut self) -> (r: Result<T, ParallelError>)
        requires
            old(self).wf(),
        ensures
            final(self).wf(),
            final(self).max_size == old(self).max_size,
            old(self).data@.len() >= 1 ==> (r matches Ok(x) && x == old(self).data@.first())
                && final(self).data@ == old(self).data@.drop_first(),
            old(self).data@.len() == 0 ==> (r matches Err(e) && e.kind == ErrorKind::NotFound)
                && final(self).data@ == old(self).data@,
    {
        if self.data.len() == 0 {
            Err(ParallelError::new(ErrorKind::NotFound))
        } else {
            let x = self.data.remove(0);
            proof {
                assert(self.data@ =~= old(self).data@.drop_first());
            }
            Ok(x)
        }
    }

    /// Dequeue the front item without failing: nothing when the queue is
    /// empty.
    pub fn get_nowait(&mut self) -> (r: Option<T>)
        requires
            old(self).wf(),
        ensures
            final(self).wf(),
            final(self).max_size == old(self).max_size,
            old(self).data@.len() >= 1 ==> (r matches Some(x) && x == old(self).data@.first())
                && final(self).data@ == old(self).data@.drop_first(),
            old(self).data@.len() == 0 ==> r is None && final(self).data@ == old(self).data@,
    {
        if self.data.len() == 0 {
            None
        } else {
            let x = self.data.remove(0);
            proof {
                assert(self.data@ =~= old(self).data@.drop_first());
            }
            Some(x)
        }
    }

    /// Whether the queue holds no items.
    pub fn empty(&self) -> (r: bool)
        ensures
            r == (self.data@.len() == 0),
    {
        self.data.len() == 0
    }

    /// How many items the queue holds.
    pub fn size(&self) -> (r: usize)
        ensures
            r == self.data@.len(),
    {
        self.data.len()
    }

    /// Discard every item.
    pub fn clear(&mut self)
        ensures
            final(self).wf(),
            final(self).max_size == old(self).max_size,
            final(self).data@.len() == 0,
    {
        self.data.clear();
    }
}

/// A counter with the wrapping arithmetic of an atomic word.
pub struct SharedCounter {
    pub value: u64,
}

impl SharedCounter {
    /// A counter starting at the given value.
    pub fn new(initial_value: u64) -> (r: SharedCounter)
        ensures
            r.value == initial_value,
    {
        SharedCounter { value: initial_value }
    }

    /// The current value.
    pub fn value(&self) -> (r: u64)
        ensures
            r == self.value,
    {
        self.value
    }

    /// Add one, wrapping, and return the new value.
    pub fn increment(&mut self) -> (r: u64)
        ensures
            final(self).value as int == (old(self).value + 1) % 0x10000000000000000,
            r == final(self).value,
    {
        self.value = self.value.wrapping_add(1);
        self.value
    }

    /// Subtract one, wrapping, and return the new value.
    pub fn decrement(&mut self) -> (r: u64)
        ensures
            final(self).value as int == (old(self).value - 1) % 0x10000000000000000,
            r == final(self).value,
    {
        self.value = self.value.wrapping_sub(1);
        self.value
    }

    /// Add an amount, wrapping, and return the new value.
    pub fn add(&mut self, amount: u64) -> (r: u64)
        ensures
            final(self).value as int == (old(self).value + amount) % 0x10000000000000000,
            r == final(self).value,
    {
        self.value = self.value.wrapping_add(amount);
        self.value
    }

    /// Subtract an amount, wrapping, and return the new value.
    pub fn subtract(&mut self, amount: u64) -> (r: u64)
        ensures
            final(self).value as int == (old(self).value - amount) % 0x10000000000000000,
            r == final(self).value,
    {
        self.value = self.value.wrapping_sub(amount);
        self.value
    }

    /// Set the value and return the previous one.
    pub fn set(&mut self, value: u64) -> (r: u64)
        ensures
            final(self).value == value,
            r == old(self).value,
    {
        let previous = self.value;
        self.value = value;
        previous
    }

    /// Set the value to `new` exactly when the current value is `current`;
    /// either way, return the value observed before the call.
    pub fn compare_and_swap(&mut self, current: u64, new: u64) -> (r: u64)
        ensures
            r == old(self).value,
            old(self).value == current ==> final(self).value == new,
            old(self).value != current ==> final(self).value == old(self).value,
    {
        let observed = self.value;
        if observed == current {
            self.value = new;
        }
        observed
    }

    /// Reset to zero and return the previous value.
    pub fn reset(&mut self) -> (r: u64)
        ensures
            final(self).value == 0,
            r == old(self).value,
    {
        let previous = self.value;
        self.value = 0;
        previous
    }
}

} // verus!
