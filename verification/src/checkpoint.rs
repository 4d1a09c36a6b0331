//! Persistent checkpointing: checkpoint records, the manager that saves,
//! lists, restores and deletes them under a per-operation retention bound,
//! and the auto-checkpoint wrapper that saves on an interval. The manager
//! holds the authoritative record of its checkpoint directory; the embedding
//! mirrors every save and delete to `<dir>/<id>.json` files on disk.

use vstd::prelude::*;
use vstd::multiset::Multiset;

use crate::error::{ErrorKind, ParallelError};
use crate::text::{spec_dec, spec_hex, u64_to_hex, u64_to_string};

verus! {

/// Relies on `uuid::Uuid::new_v4` (converted through `Uuid::as_u128`): a
/// fresh random 128-bit identifier. Nothing is promised of its value.
#[verifier::external_body]
pub(crate) fn fresh_entropy() -> (r: u64)
    ensures
        true,
{
    uuid::Uuid::new_v4().as_u128() as u64
}

/// A persisted checkpoint: an identifier, the operation it belongs to, a
/// string-to-string state snapshot, a progress fraction in thousandths, the
/// save instant in microseconds, and free-form metadata.
#[verifier::ext_equal]
#[derive(Debug)]
pub struct Checkpoint {
    pub id: String,
    pub operation: String,
    pub state: Vec<(String, String)>,
    pub progress_milli: u32,
    pub timestamp_us: u64,
    pub metadata: Vec<(String, String)>,
}

/// The mathematical view of a checkpoint: every string as its character
/// sequence.
pub struct CheckpointV {
    pub id: Seq<char>,
    pub operation: Seq<char>,
    pub state: Seq<(Seq<char>, Seq<char>)>,
    pub progress_milli: u32,
    pub timestamp_us: u64,
    pub metadata: Seq<(Seq<char>, Seq<char>)>,
}

/// The view of a vector of string pairs.
pub open spec fn pairs_view(v: Seq<(String, String)>) -> Seq<(Seq<char>, Seq<char>)> {
    v.map_values(|p: (String, String)| (p.0@, p.1@))
}

impl View for Checkpoint {
    type V = CheckpointV;

    open spec fn view(&self) -> CheckpointV {
        CheckpointV {
            id: self.id@,
            operation: self.operation@,
            state: pairs_view(self.state@),
            progress_milli: self.progress_milli,
            timestamp_us: self.timestamp_us,
            metadata: pairs_view(self.metadata@),
        }
    }
}

/// The views of a record vector.
pub open spec fn records_view(v: Seq<Checkpoint>) -> Seq<CheckpointV> {
    v.map_values(|c: Checkpoint| c@)
}

/// Copy a vector of string pairs, exactly.
fn clone_pairs(v: &Vec<(String, String)>) -> (r: Vec<(String, String)>)
    ensures
        r@ == v@,
{
    let mut out: Vec<(String, String)> = Vec::new();
    let mut i: usize = 0;
    while i < v.len()
        invariant
            i <= v@.len(),
            out@ =~= v@.take(i as int),
        decreases v@.len() - i,
    {
        let pair = &v[i];
        out.push((pair.0.clone(), pair.1.clone()));
        proof {
            assert(v@.take(i + 1 as int) =~= v@.take(i as int).push(v@[i as int]));
        }
        i = i + 1;
    }
    proof {
        assert(v@.take(v@.len() as int) =~= v@);
    }
    out
}

impl Checkpoint {
    /// Build a checkpoint record from its parts, stamped with the given save
    /// instant.
    pub fn new(
        id: String,
        operation: String,
        state: Vec<(String, String)>,
        progress_milli: u32,
        metadata: Option<Vec<(String, String)>>,
        now_us: u64,
    ) -> (r: Checkpoint)
        ensures
            r.id == id,
            r.operation == operation,
            r.state == state,
            r.progress_milli == progress_milli,
            r.timestamp_us == now_us,
            metadata matches Some(m) ==> r.metadata == m,
            metadata is None ==> r.metadata@.len() == 0,
    {
        Checkpoint {
            id,
            operation,
            state,
            progress_milli,
            timestamp_us: now_us,
            metadata: match metadata {
                Some(m) => m,
                None => Vec::new(),
            },
        }
    }

    /// Copy this record: the copy and the original have the same view.
    pub fn duplicate(&self) -> (r: Checkpoint)
        ensures
            r@ == self@,
            r.timestamp_us == self.timestamp_us,
            r.progress_milli == self.progress_milli,
    {
        let r = Checkpoint {
            id: self.id.clone(),
            operation: self.operation.clone(),
            state: clone_pairs(&self.state),
            progress_milli: self.progress_milli,
            timestamp_us: self.timestamp_us,
            metadata: clone_pairs(&self.metadata),
        };
        proof {
            assert(r@ =~= self@);
        }
        r
    }
}

/// How many records of a directory belong to the given operation.
pub open spec fn count_for_op(records: Seq<Checkpoint>, op: Seq<char>) -> int
    decreases records.len(),
{
    if records.len() == 0 {
        0
    } else {
        count_for_op(records.drop_last(), op) + if records.last().operation@ == op {
            1int
        } else {
            0int
        }
    }
}

/// Position `i` holds the newest record carrying the identifier: no later
/// record carries it. A later save that happens to compose the same
/// identifier overwrites the earlier save's file, so the newest record is
/// the one the directory holds.
pub open spec fn is_last_with_id(records: Seq<Checkpoint>, id: Seq<char>, i: int) -> bool {
    &&& 0 <= i < records.len()
    &&& records[i].id@ == id
    &&& forall|j: int| i < j < records.len() ==> (#[trigger] records[j]).id@ != id
}

/// The identifier a save composes: the operation, the save instant in
/// milliseconds, and an eight-digit random hexadecimal suffix, joined by
/// underscores.
pub open spec fn spec_checkpoint_id(op: Seq<char>, now_us: u64, entropy: u64) -> Seq<char> {
    op + "_"@ + spec_dec(now_us as int / 1000) + "_"@ + spec_hex(entropy as int, 8)
}

/// Coordinates saving, listing, restoring and deleting checkpoints, keeping
/// at most `max_checkpoints` records per operation. Its record vector is the
/// authoritative view of the checkpoint directory, in save order.
pub struct CheckpointManager {
    pub checkpoint_dir: String,
    pub auto_save_interval: Option<u64>,
    pub max_checkpoints: usize,
    pub records: Vec<Checkpoint>,
}

impl CheckpointManager {
    /// The manager's invariant: retention is positive and holds for every
    /// operation — no operation ever has more than `max_checkpoints` records.
    pub open spec fn wf(&self) -> bool {
        &&& self.max_checkpoints >= 1
        &&& forall|op: Seq<char>| #[trigger] count_for_op(self.records@, op) <= self.max_checkpoints
    }

    /// Build a manager over the given directory, empty. The embedding creates
    /// the directory itself. Retention defaults to ten records per operation;
    /// a bound of zero is ruled out by the precondition, since it would
    /// delete each checkpoint the moment it is saved (the embedding clamps
    /// such a request to one).
    pub fn new(checkpoint_dir: String, auto_save_interval: Option<u64>, max_checkpoints: Option<
        usize,
    >) -> (r: CheckpointManager)
        requires
            max_checkpoints matches Some(m) ==> m >= 1,
        ensures
            r.wf(),
            r.checkpoint_dir == checkpoint_dir,
            r.auto_save_interval == auto_save_interval,
            max_checkpoints matches Some(m) ==> r.max_checkpoints == m,
            max_checkpoints is None ==> r.max_checkpoints == 10,
            r.records@.len() == 0,
    {
        let r = CheckpointManager {
            checkpoint_dir,
            auto_save_interval,
            max_checkpoints: match max_checkpoints {
                Some(m) => m,
                None => 10,
            },
            records: Vec::new(),
        };
        proof {
            assert forall|op: Seq<char>| #[trigger] count_for_op(r.records@, op)
                <= r.max_checkpoints by {
                assert(count_for_op(r.records@, op) == 0);
            }
        }
        r
    }

    /// Take one already-built record into the directory: it is appended and
    /// its operation trimmed to the retention bound, exactly as a fresh save
    /// would be. This is the load path of an embedding that rebuilds the
    /// manager from records persisted by an earlier process.
    pub fn adopt_record(&mut self, record: Checkpoint) -> (removed: Vec<Checkpoint>)
        requires
            old(self).wf(),
        ensures
            final(self).wf(),
            final(self).max_checkpoints == old(self).max_checkpoints,
            final(self).checkpoint_dir == old(self).checkpoint_dir,
            final(self).records@.len() >= 1,
            final(self).records@.last() == record,
            count_for_op(final(self).records@, record.operation@) == if count_for_op(
                old(self).records@,
                record.operation@,
            ) < old(self).max_checkpoints {
                count_for_op(old(self).records@, record.operation@) + 1
            } else {
                old(self).max_checkpoints as int
            },
            removed@.len() <= 1,
            removed@.len() == 0 ==> final(self).records@ == old(self).records@.push(record),
            removed@.len() == 1 ==> exists|i: int|
                0 <= i < old(self).records@.len() && old(self).records@[i] == removed@[0]
                    && final(self).records@ == old(self).records@.push(record).remove(i),
            forall|i: int|
                0 <= i < removed@.len() ==> (#[trigger] removed@[i]).operation@
                    == record.operation@,
            forall|i: int, j: int|
                0 <= i < removed@.len() && 0 <= j < final(self).records@.len() - 1 && (#[trigger] final(self).records@[j]).operation@ == record.operation@ ==> (#[trigger] removed@[i]).timestamp_us
                    <= final(self).records@[j].timestamp_us,
    {
        let operation_id = record.operation.clone();
        let ghost pre = self.records@;
        self.records.push(record);
        proof {
            lemma_count_push(pre, self.records@.last(), operation_id@);
            assert forall|op: Seq<char>| #[trigger] count_for_op(self.records@, op)
                <= self.max_checkpoints + 1 by {
                lemma_count_push(pre, self.records@.last(), op);
            }
            assert forall|op: Seq<char>| op != operation_id@ implies #[trigger] count_for_op(
                self.records@,
                op,
            ) <= self.max_checkpoints by {
                lemma_count_push(pre, self.records@.last(), op);
            }
        }
        let ghost pushed = self.records@;
        let removed = self.trim_for_op(&operation_id);
        proof {
            if removed@.len() == 1 {
                let i = choose|i: int|
                    0 <= i < pushed.len() - 1 && pushed[i] == removed@[0] && self.records@
                        == pushed.remove(i);
                assert(pre[i] == removed@[0]);
            }
        }
        removed
    }

    /// Save a checkpoint at the given instant with the given entropy: compose
    /// the identifier, append the record, then trim the operation's oldest
    /// records until at most `max_checkpoints` remain. Returns the new
    /// identifier and the records the trim removed (whose files the embedding
    /// deletes). Every removed record belongs to the operation and is no
    /// newer than any kept record of the operation.
    pub fn save_checkpoint_at(
        &mut self,
        operation_id: String,
        state_data: Vec<(String, String)>,
        progress_milli: u32,
        metadata: Option<Vec<(String, String)>>,
        now_us: u64,
        entropy: u64,
    ) -> (r: (String, Vec<Checkpoint>))
        requires
            old(self).wf(),
        ensures
            final(self).wf(),
            final(self).max_checkpoints == old(self).max_checkpoints,
            final(self).checkpoint_dir == old(self).checkpoint_dir,
            r.0@ == spec_checkpoint_id(operation_id@, now_us, entropy),
            final(self).records@.len() >= 1,
            final(self).records@.last().id == r.0,
            final(self).records@.last().operation == operation_id,
            final(self).records@.last().state == state_data,
            final(self).records@.last().progress_milli == progress_milli,
            final(self).records@.last().timestamp_us == now_us,
            count_for_op(final(self).records@, operation_id@) == if count_for_op(
                old(self).records@,
                operation_id@,
            ) < old(self).max_checkpoints {
                count_for_op(old(self).records@, operation_id@) + 1
            } else {
                old(self).max_checkpoints as int
            },
            metadata matches Some(m) ==> final(self).records@.last().metadata == m,
            metadata is None ==> final(self).records@.last().metadata@.len() == 0,
            r.1@.len() <= 1,
            r.1@.len() == 0 ==> final(self).records@ == old(self).records@.push(
                final(self).records@.last(),
            ),
            r.1@.len() == 1 ==> exists|i: int|
                0 <= i < old(self).records@.len() && old(self).records@[i] == r.1@[0] && final(self).records@ == old(self).records@.push(final(self).records@.last()).remove(i),
            forall|i: int|
                0 <= i < r.1@.len() ==> (#[trigger] r.1@[i]).operation@ == operation_id@,
            forall|i: int, j: int|
                0 <= i < r.1@.len() && 0 <= j < final(self).records@.len() - 1 && (#[trigger] final(self).records@[j]).operation@ == operation_id@ ==> (#[trigger] r.1@[i]).timestamp_us
                    <= final(self).records@[j].timestamp_us,
    {
        let millis = now_us / 1000;
        let mut id = operation_id.clone();
        id.append("_");
        let millis_str = u64_to_string(millis);
        id.append(millis_str.as_str());
        id.append("_");
        let suffix = u64_to_hex(entropy, 8);
        id.append(suffix.as_str());
        proof {
            reveal_strlit("_");
        }
        let record = Checkpoint::new(
            id.clone(),
            operation_id.clone(),
            state_data,
            progress_milli,
            metadata,
            now_us,
        );
        let removed = self.adopt_record(record);
        (id, removed)
    }

    /// Save a checkpoint at the given instant, drawing the random identifier
    /// suffix itself.
    pub fn save_checkpoint(
        &mut self,
        operation_id: String,
        state_data: Vec<(String, String)>,
        progress_milli: u32,
        metadata: Option<Vec<(String, String)>>,
        now_us: u64,
    ) -> (r: (String, Vec<Checkpoint>))
        requires
            old(self).wf(),
        ensures
            final(self).wf(),
            final(self).max_checkpoints == old(self).max_checkpoints,
            final(self).checkpoint_dir == old(self).checkpoint_dir,
            exists|entropy: u64| r.0@ == spec_checkpoint_id(operation_id@, now_us, entropy),
            final(self).records@.len() >= 1,
            final(self).records@.last().id == r.0,
            final(self).records@.last().operation == operation_id,
            final(self).records@.last().state == state_data,
            final(self).records@.last().progress_milli == progress_milli,
            final(self).records@.last().timestamp_us == now_us,
            metadata matches Some(m) ==> final(self).records@.last().metadata == m,
            metadata is None ==> final(self).records@.last().metadata@.len() == 0,
            count_for_op(final(self).records@, operation_id@) == if count_for_op(
                old(self).records@,
                operation_id@,
            ) < old(self).max_checkpoints {
                count_for_op(old(self).records@, operation_id@) + 1
            } else {
                old(self).max_checkpoints as int
            },
            r.1@.len() <= 1,
            r.1@.len() == 0 ==> final(self).records@ == old(self).records@.push(
                final(self).records@.last(),
            ),
            r.1@.len() == 1 ==> exists|i: int|
                0 <= i < old(self).records@.len() && old(self).records@[i] == r.1@[0] && final(self).records@ == old(self).records@.push(final(self).records@.last()).remove(i),
            forall|i: int|
                0 <= i < r.1@.len() ==> (#[trigger] r.1@[i]).operation@ == operation_id@,
    {
        let entropy = fresh_entropy();
        self.save_checkpoint_at(operation_id, state_data, progress_milli, metadata, now_us, entropy)
    }

    /// Remove the oldest records of the operation until at most
    /// `max_checkpoints` remain, returning the removed records. Ties on the
    /// timestamp keep the later save.
    fn trim_for_op(&mut self, operation_id: &String) -> (removed: Vec<Checkpoint>)
        requires
            old(self).max_checkpoints >= 1,
            forall|op: Seq<char>| #[trigger] count_for_op(old(self).records@, op) <= old(self).max_checkpoints + 1,
            count_for_op(old(self).records@, operation_id@) <= old(self).max_checkpoints + 1,
            old(self).records@.len() >= 1,
            forall|op: Seq<char>|
                op != operation_id@ ==> #[trigger] count_for_op(old(self).records@, op) <= old(self).max_checkpoints,
        ensures
            final(self).wf(),
            final(self).max_checkpoints == old(self).max_checkpoints,
            final(self).checkpoint_dir == old(self).checkpoint_dir,
            count_for_op(final(self).records@, operation_id@) == if count_for_op(
                old(self).records@,
                operation_id@,
            ) <= old(self).max_checkpoints {
                count_for_op(old(self).records@, operation_id@)
            } else {
                old(self).max_checkpoints as int
            },
            final(self).records@.len() >= 1 && final(self).records@.last() == old(self).records@.last(),
            removed@.len() <= 1,
            removed@.len() == 0 ==> final(self).records@ == old(self).records@,
            removed@.len() == 1 ==> exists|i: int|
                0 <= i < old(self).records@.len() - 1 && old(self).records@[i] == removed@[0]
                    && final(self).records@ == old(self).records@.remove(i),
            forall|i: int|
                0 <= i < removed@.len() ==> (#[trigger] removed@[i]).operation@ == operation_id@,
            forall|i: int, j: int|
                0 <= i < removed@.len() && 0 <= j < final(self).records@.len() - 1 && (#[trigger] final(self).records@[j]).operation@ == operation_id@ ==> (#[trigger] removed@[i]).timestamp_us
                    <= final(self).records@[j].timestamp_us,
    {
        let mut removed: Vec<Checkpoint> = Vec::new();
        let over = {
            let c = self.count_checkpoints_for(operation_id);
            c > self.max_checkpoints
        };
        if !over {
            return removed;
        }
        // One record over the bound: remove the oldest previously saved
        // record of the operation (the newest record, just saved, is kept).
        let limit = self.records.len() - 1;
        match self.oldest_index_for(operation_id, limit) {
            Some(idx) => {
                let victim = self.records.remove(idx);
                proof {
                    lemma_count_remove(old(self).records@, idx as int, operation_id@);
                    assert forall|op: Seq<char>| #[trigger] count_for_op(self.records@, op)
                        <= self.max_checkpoints by {
                        lemma_count_remove(old(self).records@, idx as int, op);
                        lemma_count_nonneg(self.records@, op);
                    }
                    assert(self.records@.last() == old(self).records@.last());
                }
                removed.push(victim);
                proof {
                    assert(removed@[0] == old(self).records@[idx as int]);
                    assert(self.records@ == old(self).records@.remove(idx as int));
                }
            },
            None => {
                proof {
                    lemma_count_nonneg(old(self).records@, operation_id@);
                    let pre = old(self).records@;
                    assert(forall|j: int|
                        0 <= j < pre.len() - 1 ==> (#[trigger] pre[j]).operation@
                            != operation_id@);
                    assert(forall|j: int|
                        0 <= j < pre.drop_last().len() ==> (#[trigger] pre.drop_last()[j]).operation@
                            != operation_id@);
                    lemma_count_zero_no_match(pre.drop_last(), operation_id@);
                    assert(count_for_op(pre, operation_id@) <= 1);
                    assert(false);
                }
            },
        }
        removed
    }

    /// How many records belong to the operation.
    pub fn count_checkpoints_for(&self, operation_id: &String) -> (r: usize)
        ensures
            r == count_for_op(self.records@, operation_id@),
    {
        let mut count: usize = 0;
        let mut i: usize = 0;
        while i < self.records.len()
            invariant
                i <= self.records@.len(),
                count == count_for_op(self.records@.take(i as int), operation_id@),
                count <= i,
            decreases self.records@.len() - i,
        {
            proof {
                assert(self.records@.take(i + 1 as int).drop_last() =~= self.records@.take(
                    i as int,
                ));
                assert(self.records@.take(i + 1 as int).last() == self.records@[i as int]);
            }
            if eq_str(&self.records[i].operation, operation_id) {
                count = count + 1;
            }
            i = i + 1;
        }
        proof {
            assert(self.records@.take(self.records@.len() as int) =~= self.records@);
        }
        count
    }

    /// The index, among the first `limit` records, of the oldest record of
    /// the operation (the first one on a timestamp tie), if any matches
    /// there.
    fn oldest_index_for(&self, operation_id: &String, limit: usize) -> (r: Option<usize>)
        requires
            limit <= self.records@.len(),
        ensures
            match r {
                Some(idx) => idx < limit && self.records@[idx as int].operation@ == operation_id@
                    && forall|j: int|
                    0 <= j < limit && (#[trigger] self.records@[j]).operation@ == operation_id@
                        ==> self.records@[idx as int].timestamp_us
                        <= self.records@[j].timestamp_us,
                None => forall|j: int|
                    0 <= j < limit ==> (#[trigger] self.records@[j]).operation@ != operation_id@,
            },
    {
        let mut best: Option<usize> = None;
        let mut i: usize = 0;
        while i < limit
            invariant
                limit <= self.records@.len(),
                i <= limit,
                match best {
                    Some(idx) => idx < i && self.records@[idx as int].operation@ == operation_id@
                        && forall|j: int|
                        0 <= j < i && (#[trigger] self.records@[j]).operation@ == operation_id@
                            ==> self.records@[idx as int].timestamp_us
                            <= self.records@[j].timestamp_us,
                    None => forall|j: int|
                        0 <= j < i ==> (#[trigger] self.records@[j]).operation@ != operation_id@,
                },
            decreases limit - i,
        {
            if eq_str(&self.records[i].operation, operation_id) {
                match best {
                    Some(idx) => {
                        if self.records[i].timestamp_us < self.records[idx].timestamp_us {
                            best = Some(i);
                        }
                    },
                    None => {
                        best = Some(i);
                    },
                }
            }
            i = i + 1;
        }
        best
    }

    /// Restore the checkpoint with the given identifier: a copy of exactly
    /// the newest record carrying it (a later save of the same identifier
    /// overwrites the earlier one's file), or `NotFound` when no record
    /// carries the identifier.
    pub fn restore_checkpoint(&self, checkpoint_id: &String) -> (r: Result<
        Checkpoint,
        ParallelError,
    >)
        ensures
            match r {
                Ok(c) => c@.id == checkpoint_id@ && exists|i: int|
                    #[trigger] is_last_with_id(self.records@, checkpoint_id@, i) && (
                    self.records@[i])@ == c@,
                Err(e) => e.kind == ErrorKind::NotFound && forall|i: int|
                    0 <= i < self.records@.len() ==> (#[trigger] self.records@[i]).id@
                        != checkpoint_id@,
            },
    {
        let mut found: Option<usize> = None;
        let mut i: usize = 0;
        let n = self.records.len();
        while i < n
            invariant
                i <= n,
                n == self.records@.len(),
                match found {
                    Some(k) => k < i && self.records@[k as int].id@ == checkpoint_id@ && forall|
                        j: int,
                    | k < j < i ==> (#[trigger] self.records@[j]).id@ != checkpoint_id@,
                    None => forall|j: int|
                        0 <= j < i ==> (#[trigger] self.records@[j]).id@ != checkpoint_id@,
                },
            decreases n - i,
        {
            if eq_str(&self.records[i].id, checkpoint_id) {
                found = Some(i);
            }
            i = i + 1;
        }
        match found {
            Some(k) => {
                let c = self.records[k].duplicate();
                proof {
                    assert(is_last_with_id(self.records@, checkpoint_id@, k as int));
                    assert((self.records@[k as int])@ == c@);
                }
                Ok(c)
            },
            None => Err(ParallelError::new(ErrorKind::NotFound)),
        }
    }

    /// The records of the operation (or all records), newest first. Ties on
    /// the timestamp keep save order.
    pub fn list_checkpoints(&self, operation_id: Option<&String>) -> (r: Vec<Checkpoint>)
        ensures
            forall|i: int, j: int|
                0 <= i < j < r@.len() ==> (#[trigger] r@[i]).timestamp_us >= (#[trigger] r@[j]).timestamp_us,
            records_view(r@).to_multiset() == records_view(self.records@).filter(
                list_pred(operation_id_view(operation_id)),
            ).to_multiset(),
    {
        broadcast use vstd::seq_lib::group_to_multiset_ensures;

        let ghost p = list_pred(operation_id_view(operation_id));
        let ghost rv = records_view(self.records@);
        let mut matching: Vec<Checkpoint> = Vec::new();
        let mut i: usize = 0;
        while i < self.records.len()
            invariant
                i <= self.records@.len(),
                rv == records_view(self.records@),
                records_view(matching@) == rv.take(i as int).filter(p),
                p == list_pred(operation_id_view(operation_id)),
            decreases self.records@.len() - i,
        {
            broadcast use vstd::seq_lib::group_filter_ensures;

            let keep = match operation_id {
                Some(op) => eq_str(&self.records[i].operation, op),
                None => true,
            };
            proof {
                assert(rv.take(i + 1 as int) =~= rv.take(i as int).push(rv[i as int]));
                rv.take(i as int).lemma_filter_push(rv[i as int], p);
            }
            if keep {
                let c = self.records[i].duplicate();
                let ghost pre_matching = matching@;
                matching.push(c);
                proof {
                    assert(records_view(matching@) =~= records_view(pre_matching).push(c@));
                }
            } else {
                proof {
                    assert(records_view(matching@) =~= rv.take(i + 1 as int).filter(p));
                }
            }
            i = i + 1;
        }
        proof {
            assert(rv.take(rv.len() as int) =~= rv);
        }
        sort_by_timestamp_desc(matching)
    }

    /// The newest checkpoint of the operation, if it has any.
    pub fn get_latest_checkpoint(&self, operation_id: &String) -> (r: Option<Checkpoint>)
        ensures
            match r {
                Some(c) => c@.operation == operation_id@ && (exists|i: int|
                    0 <= i < self.records@.len() && (#[trigger] self.records@[i])@ == c@) && forall|
                    j: int,
                |
                    0 <= j < self.records@.len() && (#[trigger] self.records@[j]).operation@
                        == operation_id@ ==> self.records@[j].timestamp_us <= c.timestamp_us,
                None => forall|j: int|
                    0 <= j < self.records@.len() ==> (#[trigger] self.records@[j]).operation@
                        != operation_id@,
            },
    {
        let mut best: Option<usize> = None;
        let mut i: usize = 0;
        while i < self.records.len()
            invariant
                i <= self.records@.len(),
                match best {
                    Some(idx) => idx < i && self.records@[idx as int].operation@ == operation_id@
                        && forall|j: int|
                        0 <= j < i && (#[trigger] self.records@[j]).operation@ == operation_id@
                            ==> self.records@[j].timestamp_us
                            <= self.records@[idx as int].timestamp_us,
                    None => forall|j: int|
                        0 <= j < i ==> (#[trigger] self.records@[j]).operation@ != operation_id@,
                },
            decreases self.records@.len() - i,
        {
            if eq_str(&self.records[i].operation, operation_id) {
                match best {
                    Some(idx) => {
                        if self.records[i].timestamp_us > self.records[idx].timestamp_us {
                            best = Some(i);
                        }
                    },
                    None => {
                        best = Some(i);
                    },
                }
            }
            i = i + 1;
        }
        match best {
            Some(idx) => Some(self.records[idx].duplicate()),
            None => None,
        }
    }

    /// Delete the checkpoint with the given identifier: true exactly when a
    /// record carried it (the first such record is removed).
    pub fn delete_checkpoint(&mut self, checkpoint_id: &String) -> (r: bool)
        requires
            old(self).wf(),
        ensures
            final(self).wf(),
            final(self).max_checkpoints == old(self).max_checkpoints,
            final(self).checkpoint_dir == old(self).checkpoint_dir,
            r ==> exists|i: int|
                0 <= i < old(self).records@.len() && (#[trigger] old(self).records@[i]).id@
                    == checkpoint_id@ && final(self).records@ == old(self).records@.remove(i),
            !r ==> final(self).records@ == old(self).records@ && forall|i: int|
                0 <= i < old(self).records@.len() ==> (#[trigger] old(self).records@[i]).id@
                    != checkpoint_id@,
    {
        let mut found: Option<usize> = None;
        let mut i: usize = 0;
        let n = self.records.len();
        while i < n && found.is_none()
            invariant
                n == self.records@.len(),
                i <= n,
                match found {
                    Some(idx) => idx < n && self.records@[idx as int].id@ == checkpoint_id@,
                    None => forall|j: int|
                        0 <= j < i ==> (#[trigger] self.records@[j]).id@ != checkpoint_id@,
                },
            decreases n - i, (if found is None {
                1int
            } else {
                0int
            }),
        {
            if eq_str(&self.records[i].id, checkpoint_id) {
                found = Some(i);
            } else {
                i = i + 1;
            }
        }
        match found {
            Some(idx) => {
                let ghost pre = self.records@;
                let _ = self.records.remove(idx);
                proof {
                    assert forall|op: Seq<char>| #[trigger] count_for_op(self.records@, op)
                        <= self.max_checkpoints by {
                        lemma_count_remove(pre, idx as int, op);
                        lemma_count_nonneg(self.records@, op);
                        assert(count_for_op(pre, op) <= self.max_checkpoints);
                    }
                }
                true
            },
            None => false,
        }
    }

    /// How many checkpoints the manager holds, and how many distinct
    /// operations they belong to.
    pub fn get_stats(&self) -> (r: (usize, usize))
        ensures
            r.0 == self.records@.len(),
            r.1 == self.records@.map_values(|c: Checkpoint| c.operation@).to_set().len(),
    {
        let mut seen: Vec<String> = Vec::new();
        let mut i: usize = 0;
        let ghost ops = self.records@.map_values(|c: Checkpoint| c.operation@);
        proof {
            assert(ops.take(0) =~= Seq::<Seq<char>>::empty());
            assert(seen@.map_values(|s: String| s@) =~= Seq::<Seq<char>>::empty());
            assert(Seq::<Seq<char>>::empty().to_set() =~= Set::<Seq<char>>::empty());
        }
        while i < self.records.len()
            invariant
                i <= self.records@.len(),
                ops == self.records@.map_values(|c: Checkpoint| c.operation@),
                seen@.map_values(|s: String| s@).to_set() == ops.take(i as int).to_set(),
                seen@.map_values(|s: String| s@).no_duplicates(),
                seen@.len() == ops.take(i as int).to_set().len(),
            decreases self.records@.len() - i,
        {
            let op = &self.records[i].operation;
            let mut found = false;
            let mut j: usize = 0;
            while j < seen.len()
                invariant
                    j <= seen@.len(),
                    found <==> exists|q: int| 0 <= q < j && (#[trigger] seen@[q])@ == op@,
                decreases seen@.len() - j,
            {
                if eq_str(&seen[j], op) {
                    found = true;
                    j = seen.len();
                } else {
                    j = j + 1;
                }
            }
            proof {
                assert(ops.take(i + 1 as int) =~= ops.take(i as int).push(op@));
                lemma_to_set_push(ops.take(i as int), op@);
                let sv = seen@.map_values(|s: String| s@);
                if found {
                    let q = choose|q: int| 0 <= q < seen@.len() && (#[trigger] seen@[q])@ == op@;
                    assert(sv[q] == op@);
                    assert(sv.to_set().contains(op@));
                } else {
                    assert forall|q: int| 0 <= q < sv.len() implies #[trigger] sv[q] != op@ by {
                        assert((seen@[q])@ != op@);
                    }
                    if sv.to_set().contains(op@) {
                        let q = choose|q: int| 0 <= q < sv.len() && #[trigger] sv[q] == op@;
                        assert(false);
                    }
                }
            }
            if !found {
                let ghost pre_seen = seen@;
                seen.push(op.clone());
                proof {
                    assert(seen@.map_values(|s: String| s@) =~= pre_seen.map_values(
                        |s: String| s@,
                    ).push(op@));
                    lemma_no_dup_push(pre_seen.map_values(|s: String| s@), op@);
                    lemma_to_set_push(pre_seen.map_values(|s: String| s@), op@);
                    lemma_set_insert_len(pre_seen.map_values(|s: String| s@).to_set(), op@);
                }
            }
            i = i + 1;
        }
        proof {
            assert(ops.take(ops.len() as int) =~= ops);
        }
        (self.records.len(), seen.len())
    }
}

/// Whether a record is kept by a listing filtered to `op` (or unfiltered).
pub open spec fn list_pred(op: Option<Seq<char>>) -> spec_fn(CheckpointV) -> bool {
    |c: CheckpointV|
        match op {
            Some(o) => c.operation == o,
            None => true,
        }
}

/// The view of an optional operation filter.
pub open spec fn operation_id_view(op: Option<&String>) -> Option<Seq<char>> {
    match op {
        Some(s) => Some(s@),
        None => None,
    }
}

/// Compare two strings by their characters.
fn eq_str(a: &String, b: &String) -> (r: bool)
    ensures
        r == (a@ == b@),
{
    *a == *b
}

/// Sort checkpoints by timestamp, newest first, by insertion; the result is a
/// permutation of the input.
fn sort_by_timestamp_desc(items: Vec<Checkpoint>) -> (r: Vec<Checkpoint>)
    ensures
        forall|i: int, j: int|
            0 <= i < j < r@.len() ==> (#[trigger] r@[i]).timestamp_us >= (#[trigger] r@[j]).timestamp_us,
        records_view(r@).to_multiset() == records_view(items@).to_multiset(),
{
    broadcast use vstd::seq_lib::group_to_multiset_ensures;

    let ghost all = records_view(items@);
    let mut rest = items;
    let mut out: Vec<Checkpoint> = Vec::new();
    while rest.len() > 0
        invariant
            records_view(out@).to_multiset().add(records_view(rest@).to_multiset())
                == all.to_multiset(),
            forall|i: int, j: int|
                0 <= i < j < out@.len() ==> (#[trigger] out@[i]).timestamp_us
                    >= (#[trigger] out@[j]).timestamp_us,
        decreases rest@.len(),
    {
        let ghost pre_rest = records_view(rest@);
        let c = rest.remove(0);
        proof {
            assert(records_view(rest@) =~= pre_rest.remove(0));
            vstd::seq_lib::to_multiset_remove(pre_rest, 0);
            assert(pre_rest.contains(pre_rest[0]));
            assert(c@ == pre_rest[0]);
        }
        // Find the insertion point: after every at-least-as-new record.
        let mut pos: usize = 0;
        while pos < out.len() && out[pos].timestamp_us >= c.timestamp_us
            invariant
                pos <= out@.len(),
                forall|i: int| 0 <= i < pos ==> (#[trigger] out@[i]).timestamp_us >= c.timestamp_us,
            decreases out@.len() - pos,
        {
            pos = pos + 1;
        }
        let ghost pre_out = records_view(out@);
        let ghost cv = c@;
        out.insert(pos, c);
        proof {
            assert(records_view(out@) =~= pre_out.take(pos as int) + seq![cv] + pre_out.skip(
                pos as int,
            ));
            lemma_insert_multiset(pre_out, cv, pos as int);
            assert forall|i: int, j: int|
                0 <= i < j < out@.len() implies (#[trigger] out@[i]).timestamp_us
                >= (#[trigger] out@[j]).timestamp_us by {
                if j < pos {
                    assert(out@[i]@ == pre_out[i]);
                    assert(out@[j]@ == pre_out[j]);
                } else if i < pos && j > pos {
                    assert(out@[i]@ == pre_out[i]);
                    assert(out@[j]@ == pre_out[j - 1]);
                } else if i == pos && j > pos {
                    assert(out@[j]@ == pre_out[j - 1]);
                } else if j == pos && i < pos {
                    assert(out@[i]@ == pre_out[i]);
                } else if i > pos {
                    assert(out@[i]@ == pre_out[i - 1]);
                    assert(out@[j]@ == pre_out[j - 1]);
                }
            }
            assert(records_view(out@).to_multiset() == pre_out.to_multiset().insert(cv));
            assert(pre_rest.to_multiset() =~= records_view(rest@).to_multiset().insert(cv)) by {
                vstd::seq_lib::to_multiset_contains(pre_rest, cv);
                assert(pre_rest.to_multiset().count(cv) > 0);
                assert(records_view(rest@).to_multiset() == pre_rest.to_multiset().remove(cv));
            }
            assert(pre_out.to_multiset().add(pre_rest.to_multiset()) == all.to_multiset());
            assert(records_view(out@).to_multiset().add(records_view(rest@).to_multiset())
                =~= all.to_multiset());
        }
    }
    proof {
        assert(records_view(rest@) =~= Seq::<CheckpointV>::empty());
        assert(records_view(out@).to_multiset() =~= all.to_multiset());
    }
    out
}

/// Inserting into a sequence adds exactly one occurrence to its multiset.
proof fn lemma_insert_multiset(s: Seq<CheckpointV>, c: CheckpointV, pos: int)
    requires
        0 <= pos <= s.len(),
    ensures
        (s.take(pos) + seq![c] + s.skip(pos)).to_multiset() == s.to_multiset().insert(c),
{
    broadcast use vstd::seq_lib::group_to_multiset_ensures;

    vstd::seq_lib::lemma_multiset_commutative(s.take(pos) + seq![c], s.skip(pos));
    vstd::seq_lib::lemma_multiset_commutative(s.take(pos), seq![c]);
    vstd::seq_lib::lemma_multiset_commutative(s.take(pos), s.skip(pos));
    assert(s.take(pos) + s.skip(pos) =~= s);
    assert(seq![c] =~= Seq::<CheckpointV>::empty().push(c));
    assert((s.take(pos) + seq![c] + s.skip(pos)).to_multiset() =~= s.to_multiset().insert(c));
}

/// Appending a record bumps the operation count of its own operation alone.
proof fn lemma_count_push(records: Seq<Checkpoint>, c: Checkpoint, op: Seq<char>)
    requires
        records.push(c).last() == c,
    ensures
        count_for_op(records.push(c), op) == count_for_op(records, op) + if c.operation@ == op {
            1int
        } else {
            0int
        },
{
    assert(records.push(c).drop_last() =~= records);
}

/// Operation counts are never negative.
proof fn lemma_count_nonneg(records: Seq<Checkpoint>, op: Seq<char>)
    ensures
        0 <= count_for_op(records, op) <= records.len(),
    decreases records.len(),
{
    if records.len() > 0 {
        lemma_count_nonneg(records.drop_last(), op);
    }
}

/// Removing a record lowers the count of its operation by one and leaves the
/// other operations' counts alone.
proof fn lemma_count_remove(records: Seq<Checkpoint>, idx: int, op: Seq<char>)
    requires
        0 <= idx < records.len(),
    ensures
        count_for_op(records.remove(idx), op) == count_for_op(records, op) - if records[idx].operation@
            == op {
            1int
        } else {
            0int
        },
    decreases records.len(),
{
    if idx == records.len() - 1 {
        assert(records.remove(idx) =~= records.drop_last());
    } else {
        assert(records.remove(idx).drop_last() =~= records.drop_last().remove(idx));
        assert(records.remove(idx).last() == records.last());
        lemma_count_remove(records.drop_last(), idx, op);
    }
}

/// In a directory with no record of the operation, the count is zero; so a
/// positive count yields a matching record.
proof fn lemma_count_zero_no_match(records: Seq<Checkpoint>, op: Seq<char>)
    requires
        forall|j: int| 0 <= j < records.len() ==> (#[trigger] records[j]).operation@ != op,
    ensures
        count_for_op(records, op) == 0,
    decreases records.len(),
{
    if records.len() > 0 {
        assert(forall|j: int|
            0 <= j < records.drop_last().len() ==> #[trigger] records.drop_last()[j] == records[j]);
        lemma_count_zero_no_match(records.drop_last(), op);
    }
}

/// Pushing a fresh element onto a duplicate-free sequence keeps it
/// duplicate-free.
proof fn lemma_no_dup_push(s: Seq<Seq<char>>, x: Seq<char>)
    requires
        s.no_duplicates(),
        forall|q: int| 0 <= q < s.len() ==> #[trigger] s[q] != x,
    ensures
        s.push(x).no_duplicates(),
{
    assert forall|p: int, q: int|
        0 <= p < q < s.push(x).len() implies #[trigger] s.push(x)[p] != #[trigger] s.push(x)[q] by {
        if q < s.len() {
        } else {
            assert(s.push(x)[q] == x);
        }
    }
}

/// The element set of a pushed sequence is the inserted element set.
proof fn lemma_to_set_push(s: Seq<Seq<char>>, x: Seq<char>)
    ensures
        s.push(x).to_set() == s.to_set().insert(x),
{
    broadcast use vstd::seq_lib::group_seq_properties;

    assert(s.push(x).to_set() =~= s.to_set().insert(x)) by {
        assert forall|y: Seq<char>| s.push(x).to_set().contains(y) implies s.to_set().insert(
            x,
        ).contains(y) by {
            let q = choose|q: int| 0 <= q < s.push(x).len() && #[trigger] s.push(x)[q] == y;
            if q < s.len() {
                assert(s[q] == y);
                assert(s.to_set().contains(y));
            }
        }
        assert forall|y: Seq<char>| s.to_set().insert(x).contains(y) implies s.push(
            x,
        ).to_set().contains(y) by {
            if y == x {
                assert(s.push(x)[s.len() as int] == x);
            } else {
                let q = choose|q: int| 0 <= q < s.len() && #[trigger] s[q] == y;
                assert(s.push(x)[q] == y);
            }
        }
    }
}

/// Inserting a fresh element grows a finite set by one.
proof fn lemma_set_insert_len(s: Set<Seq<char>>, x: Seq<char>)
    requires
        s.finite(),
        !s.contains(x),
    ensures
        s.insert(x).len() == s.len() + 1,
{
}

/// Saves a checkpoint for one operation whenever enough time has passed since
/// the last save.
pub struct AutoCheckpoint {
    pub operation_id: String,
    pub checkpoint_manager: CheckpointManager,
    pub interval_seconds: u64,
    pub last_checkpoint_us: Option<u64>,
}

/// Whether an auto-checkpoint is due: none was made yet, or the interval has
/// passed since the last one.
pub open spec fn spec_due(last_us: Option<u64>, now_us: u64, interval_seconds: u64) -> bool {
    match last_us {
        None => true,
        Some(l) => now_us >= l && now_us - l >= interval_seconds * 1000000,
    }
}

impl AutoCheckpoint {
    /// Wrap a manager for one operation with a save interval in seconds.
    pub fn new(operation_id: String, checkpoint_manager: CheckpointManager, interval_seconds: u64) -> (r:
        AutoCheckpoint)
        ensures
            r.operation_id == operation_id,
            r.checkpoint_manager == checkpoint_manager,
            r.interval_seconds == interval_seconds,
            r.last_checkpoint_us is None,
    {
        AutoCheckpoint { operation_id, checkpoint_manager, interval_seconds, last_checkpoint_us: None }
    }

    /// Save a checkpoint exactly when one is due — none has been made yet, or
    /// the interval has passed since the last — and record the save instant.
    pub fn maybe_checkpoint(
        &mut self,
        state_data: Vec<(String, String)>,
        progress_milli: u32,
        now_us: u64,
    ) -> (r: Option<(String, Vec<Checkpoint>)>)
        requires
            old(self).checkpoint_manager.wf(),
        ensures
            final(self).checkpoint_manager.wf(),
            final(self).operation_id == old(self).operation_id,
            final(self).interval_seconds == old(self).interval_seconds,
            !spec_due(old(self).last_checkpoint_us, now_us, old(self).interval_seconds) ==> r
                is None && *final(self) == *old(self),
            spec_due(old(self).last_checkpoint_us, now_us, old(self).interval_seconds) ==> r
                is Some && final(self).last_checkpoint_us == Some(now_us) && final(self).checkpoint_manager.records@.len() >= 1 && final(self).checkpoint_manager.records@.last().operation == old(self).operation_id && final(self).checkpoint_manager.records@.last().timestamp_us == now_us,
    {
        let due = match self.last_checkpoint_us {
            None => true,
            Some(l) => {
                if now_us >= l {
                    match self.interval_seconds.checked_mul(1000000) {
                        Some(iv) => now_us - l >= iv,
                        None => false,
                    }
                } else {
                    false
                }
            },
        };
        if due {
            let outcome = self.checkpoint_manager.save_checkpoint(
                self.operation_id.clone(),
                state_data,
                progress_milli,
                None,
                now_us,
            );
            self.last_checkpoint_us = Some(now_us);
            Some(outcome)
        } else {
            None
        }
    }

    /// Save a checkpoint regardless of timing, recording the save instant.
    pub fn force_checkpoint(
        &mut self,
        state_data: Vec<(String, String)>,
        progress_milli: u32,
        now_us: u64,
    ) -> (r: (String, Vec<Checkpoint>))
        requires
            old(self).checkpoint_manager.wf(),
        ensures
            final(self).checkpoint_manager.wf(),
            final(self).operation_id == old(self).operation_id,
            final(self).interval_seconds == old(self).interval_seconds,
            final(self).last_checkpoint_us == Some(now_us),
            final(self).checkpoint_manager.records@.len() >= 1,
            final(self).checkpoint_manager.records@.last().operation == old(self).operation_id,
            final(self).checkpoint_manager.records@.last().timestamp_us == now_us,
    {
        let outcome = self.checkpoint_manager.save_checkpoint(
            self.operation_id.clone(),
            state_data,
            progress_milli,
            None,
            now_us,
        );
        self.last_checkpoint_us = Some(now_us);
        outcome
    }
}

} // verus!
