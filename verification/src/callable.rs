//! The callable interfaces the toolkit runs: user-supplied work is handed in
//! as an object implementing one of these traits, whose executable method is
//! pinned to a specification-level function. A few ready-made arithmetic
//! callables close the loop for callers that just want to run numbers.

use vstd::prelude::*;

verus! {

/// The error a user callable raises: the name of its error kind, matched by
/// substring against a retry policy's list of retryable kinds.
#[derive(Clone, Debug)]
pub struct TaskError {
    pub kind_name: String,
}

impl TaskError {
    /// Build a task error from its kind name.
    pub fn new(kind_name: String) -> (r: TaskError)
        ensures
            r.kind_name == kind_name,
    {
        TaskError { kind_name }
    }
}

/// Whether an executable task result agrees with a specification-level one:
/// values must be equal, and a raised error must carry the specified kind name.
pub open spec fn task_result_matches<U>(r: Result<U, TaskError>, s: Result<U, Seq<char>>) -> bool {
    match r {
        Ok(v) => s == Ok::<U, Seq<char>>(v),
        Err(e) => s == Err::<U, Seq<char>>(e.kind_name@),
    }
}

/// A one-argument callable: `call` returns exactly what the specification
/// function `spec_call` says, either a value or an error kind.
pub trait Mapper<T, U> {
    /// What this callable returns on each input.
    spec fn spec_call(&self, t: T) -> Result<U, Seq<char>>;

    /// Apply the callable to one item.
    fn call(&self, t: &T) -> (r: Result<U, TaskError>)
        ensures
            task_result_matches(r, self.spec_call(*t)),
    ;
}

/// A two-argument callable, used by `parallel_starmap` over packed pairs.
pub trait Mapper2<A, B, U> {
    /// What this callable returns on each argument pair.
    spec fn spec_call2(&self, a: A, b: B) -> Result<U, Seq<char>>;

    /// Apply the callable to one argument pair.
    fn call2(&self, a: &A, b: &B) -> (r: Result<U, TaskError>)
        ensures
            task_result_matches(r, self.spec_call2(*a, *b)),
    ;
}

/// A predicate over items, used by `parallel_filter`.
pub trait Predicate<T> {
    /// Whether this predicate holds of an item.
    spec fn spec_pred(&self, t: T) -> bool;

    /// Test one item.
    fn test(&self, t: &T) -> (r: bool)
        ensures
            r == self.spec_pred(*t),
    ;
}

/// A binary combining operation, used by `parallel_reduce`. Combiners are
/// total functions of their operands: a reduction step itself cannot raise,
/// so the abort-and-surface path of a failing user operation lives in the
/// fallible `Mapper` interface, which can screen or transform the operands
/// first.
pub trait Combiner<T> {
    /// The value this combiner folds two operands into.
    spec fn spec_combine(&self, a: T, b: T) -> T;

    /// Combine two operands.
    fn combine(&self, a: T, b: T) -> (r: T)
        ensures
            r == self.spec_combine(a, b),
    ;
}

/// The kind name carried by the overflow error of the arithmetic callables.
pub open spec fn overflow_kind_name() -> Seq<char> {
    "OverflowError"@
}

/// Build the overflow kind name as an owned string.
pub fn overflow_kind() -> (r: String)
    ensures
        r@ == overflow_kind_name(),
{
    let r = "OverflowError";
    proof {
        reveal_strlit("OverflowError");
    }
    r.to_owned()
}

/// Squares a signed 64-bit integer; overflow surfaces as a task error.
pub struct SquareOp;

impl Mapper<i64, i64> for SquareOp {
    open spec fn spec_call(&self, t: i64) -> Result<i64, Seq<char>> {
        if i64::MIN <= t * t <= i64::MAX {
            Ok((t * t) as i64)
        } else {
            Err(overflow_kind_name())
        }
    }

    fn call(&self, t: &i64) -> (r: Result<i64, TaskError>) {
        match t.checked_mul(*t) {
            Some(v) => Ok(v),
            None => Err(TaskError::new(overflow_kind())),
        }
    }
}

/// Adds two signed 64-bit integers; used two-argument-wise by starmap.
/// Overflow surfaces as a task error.
pub struct AddPairOp;

impl Mapper2<i64, i64, i64> for AddPairOp {
    open spec fn spec_call2(&self, a: i64, b: i64) -> Result<i64, Seq<char>> {
        if i64::MIN <= a + b <= i64::MAX {
            Ok((a + b) as i64)
        } else {
            Err(overflow_kind_name())
        }
    }

    fn call2(&self, a: &i64, b: &i64) -> (r: Result<i64, TaskError>) {
        match a.checked_add(*b) {
            Some(v) => Ok(v),
            None => Err(TaskError::new(overflow_kind())),
        }
    }
}

/// Holds of even signed 64-bit integers.
pub struct IsEvenOp;

impl Predicate<i64> for IsEvenOp {
    open spec fn spec_pred(&self, t: i64) -> bool {
        t % 2 == 0
    }

    fn test(&self, t: &i64) -> (r: bool) {
        *t % 2 == 0
    }
}

/// Saturating addition of signed 64-bit integers: a total, associative
/// combiner whose identity is zero away from the saturating range.
pub struct AddOp;

impl Combiner<i64> for AddOp {
    open spec fn spec_combine(&self, a: i64, b: i64) -> i64 {
        if a + b > i64::MAX {
            i64::MAX
        } else if a + b < i64::MIN {
            i64::MIN
        } else {
            (a + b) as i64
        }
    }

    fn combine(&self, a: i64, b: i64) -> (r: i64) {
        match a.checked_add(b) {
            Some(v) => v,
            None => {
                if a > 0 {
                    i64::MAX
                } else {
                    i64::MIN
                }
            },
        }
    }
}

/// Saturating multiplication of signed 64-bit integers.
pub struct MulOp;

impl Combiner<i64> for MulOp {
    open spec fn spec_combine(&self, a: i64, b: i64) -> i64 {
        if a * b > i64::MAX {
            i64::MAX
        } else if a * b < i64::MIN {
            i64::MIN
        } else {
            (a * b) as i64
        }
    }

    fn combine(&self, a: i64, b: i64) -> (r: i64) {
        match a.checked_mul(b) {
            Some(v) => v,
            None => {
                proof {
                    lemma_mul_sign(a as int, b as int);
                }
                if (a > 0) == (b > 0) {
                    i64::MAX
                } else {
                    i64::MIN
                }
            },
        }
    }
}

/// The sign of a product follows the signs of its factors.
proof fn lemma_mul_sign(a: int, b: int)
    ensures
        (a > 0 && b > 0) || (a < 0 && b < 0) ==> a * b > 0,
        (a > 0 && b < 0) || (a < 0 && b > 0) ==> a * b < 0,
        a == 0 || b == 0 ==> a * b == 0,
{
    assert((a > 0 && b > 0) || (a < 0 && b < 0) ==> a * b > 0) by (nonlinear_arith);
    assert((a > 0 && b < 0) || (a < 0 && b > 0) ==> a * b < 0) by (nonlinear_arith);
    assert(a == 0 || b == 0 ==> a * b == 0) by (nonlinear_arith);
}

} // verus!
