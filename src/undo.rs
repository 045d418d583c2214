//! In-memory history of batch file operations and the decisions of undoing
//! them. The file system work itself is done by the caller.

use vstd::prelude::*;
use vstd::string::*;
use crate::text::{hex, hex_text, hex_plain, hex_plain_text};

verus! {

/// The kind of a recorded file operation.
#[derive(Debug, Clone, Copy, PartialEq, Eq, Structural)]
pub enum OperationType {
    Rename,
    Move,
    Delete,
}

/// One recorded file operation.
#[derive(Debug, Clone)]
pub struct FileOperation {
    pub operation_type: OperationType,
    pub original_path: String,
    pub new_path: Option<String>,
    pub timestamp: u64,
}

impl FileOperation {
    /// A field-by-field copy.
    pub fn copy(&self) -> (r: FileOperation)
        ensures
            r == *self,
    {
        let new_path = match &self.new_path {
            Some(p) => Some(p.clone()),
            None => None,
        };
        FileOperation {
            operation_type: self.operation_type,
            original_path: self.original_path.clone(),
            new_path,
            timestamp: self.timestamp,
        }
    }
}

/// A batch of operations recorded together.
#[derive(Debug, Clone)]
pub struct BatchOperation {
    pub id: String,
    pub description: String,
    pub operations: Vec<FileOperation>,
    pub timestamp: u64,
    pub undone: bool,
}

/// The outcome of undoing a batch.
#[derive(Debug, Clone)]
pub struct UndoResult {
    pub success: bool,
    pub reverted_count: usize,
    pub failed_count: usize,
    pub errors: Vec<String>,
    pub operation_description: String,
}

/// A history line for display.
#[derive(Debug, Clone)]
pub struct HistoryEntry {
    pub id: String,
    pub description: String,
    pub file_count: usize,
    pub timestamp: u64,
    pub can_undo: bool,
}

/// A batch that has just been marked undone, with the operations to revert
/// in the order to revert them (last recorded first).
#[derive(Debug, Clone)]
pub struct PendingUndo {
    pub description: String,
    pub operations: Vec<FileOperation>,
}

/// One file move that reverts an operation.
#[derive(Debug, Clone)]
pub struct UndoStep {
    pub from: String,
    pub to: String,
    /// Whether the parent directory of `to` is created first if missing.
    pub create_parent: bool,
}

/// The history of batch operations, newest last.
#[derive(Debug)]
pub struct UndoManager {
    pub history: Vec<BatchOperation>,
    pub max_history: usize,
}

/// Relies on `std::time::SystemTime::now`: seconds since the Unix epoch (0 if
/// the clock is before it) and the nanoseconds within the second.
#[verifier::external_body]
fn clock_now() -> (r: (u64, u32))
    ensures
        r.1 < 1_000_000_000,
{
    match std::time::SystemTime::now().duration_since(std::time::UNIX_EPOCH) {
        Ok(d) => (d.as_secs(), d.subsec_nanos()),
        Err(_) => (0, 0),
    }
}

/// The current time in seconds since the Unix epoch.
pub fn current_timestamp() -> (r: u64) {
    clock_now().0
}

/// A 32-bit value mixed from a time in seconds and the sub-second clock.
pub fn rand_simple(seconds: u64, nanos: u32) -> (r: u32)
    ensures
        r as int == (seconds ^ (nanos as u64)) & 0xFFFF_FFFFu64,
{
    let m = (seconds ^ (nanos as u64)) & 0xFFFF_FFFFu64;
    assert(m <= 0xFFFF_FFFFu64) by (bit_vector)
        requires
            m == (seconds ^ (nanos as u64)) & 0xFFFF_FFFFu64,
    ;
    m as u32
}

/// The text of an operation id: `op_`, the time in hexadecimal, `_`, and
/// eight hexadecimal digits of a random value.
pub open spec fn operation_id_text(seconds: u64, random: u32) -> Seq<char> {
    "op_"@ + hex_plain_text(seconds as nat) + "_"@ + hex_text(random as nat, 8)
}

/// Formats an operation id from a time and a random value.
pub fn format_operation_id(seconds: u64, random: u32) -> (r: String)
    ensures
        r@ == operation_id_text(seconds, random),
{
    let mut s = String::from_str("op_");
    let t = hex_plain(seconds);
    s.append(t.as_str());
    s.append("_");
    let x = hex(random as u64, 8);
    s.append(x.as_str());
    s
}

/// A fresh operation id and the time it was made.
pub fn generate_operation_id() -> (r: (String, u64))
    ensures
        exists|random: u32| r.0@ == operation_id_text(r.1, random),
{
    let (seconds, nanos) = clock_now();
    let random = rand_simple(seconds, nanos);
    let id = format_operation_id(seconds, random);
    let r = (id, seconds);
    assert(r.0@ == operation_id_text(r.1, random));
    r
}

/// Index of the last batch not yet undone, if any.
pub open spec fn last_undoable(h: Seq<BatchOperation>) -> Option<int>
    decreases h.len(),
{
    if h.len() == 0 {
        None
    } else if !h.last().undone {
        Some(h.len() - 1)
    } else {
        last_undoable(h.drop_last())
    }
}

/// Number of batches not yet undone.
pub open spec fn undoable(h: Seq<BatchOperation>) -> nat
    decreases h.len(),
{
    if h.len() == 0 {
        0
    } else {
        undoable(h.drop_last()) + if h.last().undone {
            0nat
        } else {
            1nat
        }
    }
}

/// The newest `max` batches of `h`.
pub open spec fn keep_newest(h: Seq<BatchOperation>, max: nat) -> Seq<BatchOperation> {
    if h.len() > max {
        h.subrange(h.len() - max, h.len() as int)
    } else {
        h
    }
}

proof fn lemma_last_undoable(h: Seq<BatchOperation>)
    ensures
        last_undoable(h).is_some() ==> {
            let i = last_undoable(h).unwrap();
            &&& 0 <= i < h.len()
            &&& !h[i].undone
            &&& forall|j: int| i < j < h.len() ==> h[j].undone
        },
        last_undoable(h).is_none() ==> forall|j: int| 0 <= j < h.len() ==> h[j].undone,
        undoable(h) <= h.len(),
        (undoable(h) > 0) == last_undoable(h).is_some(),
    decreases h.len(),
{
    if h.len() > 0 {
        lemma_last_undoable(h.drop_last());
        assert forall|j: int| 0 <= j < h.len() - 1 implies h[j] == h.drop_last()[j] by {}
    }
}

/// Counts the outcomes of reverting a batch; the errors keep their order.
pub fn summarize_undo(description: String, outcomes: Vec<Result<(), String>>) -> (r: UndoResult)
    ensures
        r.reverted_count + r.failed_count == outcomes@.len(),
        r.errors@.len() == r.failed_count,
        r.success == (r.failed_count == 0),
        r.operation_description == description,
        r.failed_count == outcome_error_index(outcomes@, outcomes@.len() as int),
        forall|k: int|
            0 <= k < outcomes@.len() && #[trigger] outcomes@[k] is Err ==> 0 <= outcome_error_index(
                outcomes@,
                k,
            ) < r.errors@.len() && r.errors@[outcome_error_index(outcomes@, k)]
                == outcomes@[k]->Err_0,
{
    let mut errors: Vec<String> = Vec::new();
    let mut reverted: usize = 0;
    let mut i: usize = 0;
    let mut rest = outcomes;
    let ghost all = rest@;
    let n = rest.len();
    while i < n
        invariant
            n == all.len(),
            0 <= i <= n,
            rest@ =~= all.subrange(i as int, n as int),
            reverted + errors@.len() == i,
            errors@.len() == outcome_error_index(all, i as int),
            forall|k: int|
                0 <= k < i && #[trigger] all[k] is Err ==> 0 <= outcome_error_index(all, k) < errors@.len()
                    && errors@[outcome_error_index(all, k)] == all[k]->Err_0,
        decreases n - i,
    {
        let o = rest.remove(0);
        assert(o == all[i as int]);
        match o {
            Ok(()) => {
                reverted = reverted + 1;
            },
            Err(e) => {
                errors.push(e);
            },
        }
        i = i + 1;
    }
    let failed = errors.len();
    UndoResult {
        success: failed == 0,
        reverted_count: reverted,
        failed_count: failed,
        errors,
        operation_description: description,
    }
}

/// Number of errors among the first `k` outcomes.
pub open spec fn outcome_error_index(o: Seq<Result<(), String>>, k: int) -> int
    decreases k,
{
    if k <= 0 {
        0
    } else {
        outcome_error_index(o, k - 1) + if o[k - 1] is Err {
            1int
        } else {
            0int
        }
    }
}

/// Decides how to revert one operation, given whether its current path
/// (`new_path`) exists and whether its original path exists.
pub fn plan_single_undo(op: &FileOperation, source_exists: bool, target_exists: bool) -> (r: Result<UndoStep, String>)
    ensures
        op.operation_type == OperationType::Delete ==> (r matches Err(e) && e@ == "Undo for delete operations is not yet supported"@),
        op.operation_type != OperationType::Delete && op.new_path.is_none() ==> (r matches Err(e) && e@ == if op.operation_type == OperationType::Rename {
            "Missing new path for rename operation"@
        } else {
            "Missing new path for move operation"@
        }),
        op.operation_type != OperationType::Delete && op.new_path.is_some() && !source_exists ==> (r matches Err(e) && e@ == "Source file not found: "@ + op.new_path.unwrap()@ + if op.operation_type == OperationType::Rename {
            " (file may have been modified)"@
        } else {
            ""@
        }),
        op.operation_type != OperationType::Delete && op.new_path.is_some() && source_exists && target_exists ==> (r matches Err(e) && e@ == "Target path already exists: "@ + op.original_path@),
        op.operation_type != OperationType::Delete && op.new_path.is_some() && source_exists && !target_exists ==> (r matches Ok(s) && s.from@ == op.new_path.unwrap()@ && s.to@ == op.original_path@ && s.create_parent == (op.operation_type == OperationType::Move)),
{
    proof {
        reveal_strlit("");
    }
    let is_rename = match op.operation_type {
        OperationType::Rename => true,
        OperationType::Move => false,
        OperationType::Delete => {
            return Err(String::from_str("Undo for delete operations is not yet supported"));
        },
    };
    let new_path = match &op.new_path {
        Some(p) => p,
        None => {
            return Err(String::from_str(if is_rename {
                "Missing new path for rename operation"
            } else {
                "Missing new path for move operation"
            }));
        },
    };
    if !source_exists {
        let mut m = String::from_str("Source file not found: ");
        m.append(new_path.as_str());
        if is_rename {
            m.append(" (file may have been modified)");
        } else {
            assert(m@ + ""@ =~= m@);
        }
        return Err(m);
    }
    if target_exists {
        let mut m = String::from_str("Target path already exists: ");
        m.append(op.original_path.as_str());
        return Err(m);
    }
    Ok(UndoStep { from: new_path.clone(), to: op.original_path.clone(), create_parent: !is_rename })
}

impl UndoManager {
    /// An empty history keeping at most `max_history` batches.
    pub fn new(max_history: usize) -> (r: UndoManager)
        ensures
            r.history@.len() == 0,
            r.max_history == max_history,
    {
        UndoManager { history: Vec::new(), max_history }
    }

    /// Records a batch and returns its id; the oldest batches are dropped
    /// beyond the history limit.
    pub fn record_batch(&mut self, description: String, operations: Vec<FileOperation>) -> (r: String)
        ensures
            final(self).max_history == old(self).max_history,
            final(self).history@.len() <= final(self).max_history,
            exists|b: BatchOperation|
                b.id@ == r@ && b.description == description && b.operations == operations
                    && !b.undone && final(self).history@ == keep_newest(
                    old(self).history@.push(b),
                    old(self).max_history as nat,
                ),
            exists|t: u64, random: u32| r@ == operation_id_text(t, random),
    {
        let (id, timestamp) = generate_operation_id();
        let batch = BatchOperation {
            id: id.clone(),
            description,
            operations,
            timestamp,
            undone: false,
        };
        let ghost pushed = old(self).history@.push(batch);
        let ghost b = batch;
        self.history.push(batch);
        let ghost mut dropped: int = 0;
        assert(self.history@ =~= pushed.subrange(0, pushed.len() as int));
        while self.history.len() > self.max_history
            invariant
                self.max_history == old(self).max_history,
                0 <= dropped <= pushed.len(),
                self.history@ == pushed.subrange(dropped, pushed.len() as int),
                dropped > 0 ==> self.history@.len() >= self.max_history,
            decreases self.history@.len(),
        {
            self.history.remove(0);
            proof {
                dropped = dropped + 1;
            }
            assert(self.history@ =~= pushed.subrange(dropped, pushed.len() as int));
        }
        assert(self.history@ =~= keep_newest(pushed, self.max_history as nat));
        assert(b.id@ == id@);
        id
    }

    /// Marks the newest batch not yet undone as undone and hands back its
    /// operations, newest first, for the caller to revert.
    pub fn undo_last(&mut self) -> (r: Option<PendingUndo>)
        ensures
            final(self).max_history == old(self).max_history,
            final(self).history@.len() == old(self).history@.len(),
            match last_undoable(old(self).history@) {
                None => r.is_none() && final(self).history@ == old(self).history@,
                Some(i) => r.is_some() && undone_at(old(self).history@, final(self).history@, i)
                    && pending_of(old(self).history@[i], r.unwrap()),
            },
    {
        let ghost h = self.history@;
        proof {
            lemma_last_undoable(h);
        }
        let mut i: usize = self.history.len();
        assert(h.subrange(0, i as int) =~= h);
        while i > 0
            invariant
                0 <= i <= self.history@.len(),
                self.history@ == h,
                h == old(self).history@,
                self.max_history == old(self).max_history,
                last_undoable(h) == last_undoable(h.subrange(0, i as int)),
            decreases i,
        {
            let ghost t = h.subrange(0, i as int);
            assert(t.drop_last() =~= h.subrange(0, i - 1));
            if !self.history[i - 1].undone {
                assert(t.last() == h[i - 1]);
                return Some(self.mark_undone(i - 1));
            }
            i = i - 1;
        }
        None
    }

    /// Marks the batch with id `id`, if present and not yet undone, as
    /// undone and hands back its operations, newest first.
    pub fn undo_by_id(&mut self, id: &str) -> (r: Option<PendingUndo>)
        ensures
            final(self).max_history == old(self).max_history,
            final(self).history@.len() == old(self).history@.len(),
            r.is_none() ==> final(self).history@ == old(self).history@ && forall|j: int|
                0 <= j < old(self).history@.len() ==> !(old(self).history@[j].id@ == id@ && !old(self).history@[j].undone),
            r.is_some() ==> exists|i: int|
                0 <= i < old(self).history@.len() && old(self).history@[i].id@ == id@
                    && !old(self).history@[i].undone && (forall|j: int| 0 <= j < i ==> !(old(self).history@[j].id@ == id@ && !old(self).history@[j].undone))
                    && undone_at(old(self).history@, final(self).history@, i) && pending_of(
                    old(self).history@[i],
                    r.unwrap(),
                ),
    {
        let mut i: usize = 0;
        while i < self.history.len()
            invariant
                0 <= i <= self.history@.len(),
                self.history@ == old(self).history@,
                self.max_history == old(self).max_history,
                forall|j: int| 0 <= j < i ==> !(self.history@[j].id@ == id@ && !self.history@[j].undone),
            decreases self.history.len() - i,
        {
            if crate::text::str_eq(self.history[i].id.as_str(), id) && !self.history[i].undone {
                let ghost h = self.history@;
                let p = self.mark_undone(i);
                assert(undone_at(h, self.history@, i as int));
                return Some(p);
            }
            i = i + 1;
        }
        None
    }

    fn mark_undone(&mut self, i: usize) -> (r: PendingUndo)
        requires
            i < old(self).history@.len(),
        ensures
            final(self).max_history == old(self).max_history,
            final(self).history@.len() == old(self).history@.len(),
            undone_at(old(self).history@, final(self).history@, i as int),
            pending_of(old(self).history@[i as int], r),
    {
        let b = &self.history[i];
        let description = b.description.clone();
        let mut ops: Vec<FileOperation> = Vec::new();
        let n = b.operations.len();
        let mut k: usize = n;
        while k > 0
            invariant
                0 <= k <= n,
                n == b.operations@.len(),
                ops@.len() == n - k,
                forall|j: int| 0 <= j < n - k ==> ops@[j] == b.operations@[n - 1 - j],
            decreases k,
        {
            ops.push(b.operations[k - 1].copy());
            k = k - 1;
        }
        let updated = BatchOperation {
            id: b.id.clone(),
            description: b.description.clone(),
            operations: b.operations.clone(),
            timestamp: b.timestamp,
            undone: true,
        };
        assert(ops@ =~= b.operations@.reverse());
        self.history.set(i, updated);
        PendingUndo { description, operations: ops }
    }

    /// The history for display, newest first; only the newest batch not yet
    /// undone can be undone.
    pub fn get_history(&self) -> (r: Vec<HistoryEntry>)
        ensures
            r@.len() == self.history@.len(),
            forall|k: int|
                0 <= k < r@.len() ==> {
                    let b = self.history@[self.history@.len() - 1 - k];
                    &&& (#[trigger] r@[k]).id == b.id
                    &&& r@[k].description == b.description
                    &&& r@[k].file_count == b.operations@.len()
                    &&& r@[k].timestamp == b.timestamp
                    &&& r@[k].can_undo == (last_undoable(self.history@) == Some(
                        self.history@.len() - 1 - k,
                    ))
                },
    {
        let ghost h = self.history@;
        let mut i: usize = self.history.len();
        assert(h.subrange(0, i as int) =~= h);
        while i > 0
            invariant
                0 <= i <= h.len(),
                self.history@ == h,
                forall|j: int| i <= j < h.len() ==> h[j].undone,
                last_undoable(h) == last_undoable(h.subrange(0, i as int)),
            ensures
                i > 0 ==> last_undoable(h) == Some(i - 1),
                i == 0 ==> last_undoable(h).is_none(),
            decreases i,
        {
            let ghost t = h.subrange(0, i as int);
            assert(t.drop_last() =~= h.subrange(0, i - 1));
            if !self.history[i - 1].undone {
                assert(t.last() == h[i - 1]);
                break;
            }
            i = i - 1;
        }
        if i == 0 {
            assert(h.subrange(0, 0).len() == 0);
        }
        let n = self.history.len();
        let mut r: Vec<HistoryEntry> = Vec::new();
        let mut k: usize = 0;
        while k < n
            invariant
                n == h.len(),
                self.history@ == h,
                0 <= k <= n,
                r@.len() == k,
                i > 0 ==> last_undoable(h) == Some(i - 1),
                i == 0 ==> last_undoable(h).is_none(),
                forall|q: int|
                    0 <= q < k ==> {
                        let b = h[h.len() - 1 - q];
                        &&& (#[trigger] r@[q]).id == b.id
                        &&& r@[q].description == b.description
                        &&& r@[q].file_count == b.operations@.len()
                        &&& r@[q].timestamp == b.timestamp
                        &&& r@[q].can_undo == (last_undoable(h) == Some(h.len() - 1 - q))
                    },
            decreases n - k,
        {
            let j = n - 1 - k;
            let b = &self.history[j];
            r.push(
                HistoryEntry {
                    id: b.id.clone(),
                    description: b.description.clone(),
                    file_count: b.operations.len(),
                    timestamp: b.timestamp,
                    can_undo: i > 0 && j == i - 1,
                },
            );
            k = k + 1;
        }
        r
    }

    /// Whether some batch can still be undone.
    pub fn can_undo(&self) -> (r: bool)
        ensures
            r == (undoable(self.history@) > 0),
    {
        self.undoable_count() > 0
    }

    /// Forgets every batch.
    pub fn clear_history(&mut self)
        ensures
            final(self).history@.len() == 0,
            final(self).max_history == old(self).max_history,
    {
        self.history.clear();
    }

    /// The description of the newest batch not yet undone.
    pub fn get_last_operation_description(&self) -> (r: Option<String>)
        ensures
            match last_undoable(self.history@) {
                Some(i) => r == Some(self.history@[i].description),
                None => r.is_none(),
            },
    {
        let ghost h = self.history@;
        let mut i: usize = self.history.len();
        assert(h.subrange(0, i as int) =~= h);
        while i > 0
            invariant
                0 <= i <= h.len(),
                self.history@ == h,
                last_undoable(h) == last_undoable(h.subrange(0, i as int)),
            decreases i,
        {
            let ghost t = h.subrange(0, i as int);
            assert(t.drop_last() =~= h.subrange(0, i - 1));
            if !self.history[i - 1].undone {
                assert(t.last() == h[i - 1]);
                return Some(self.history[i - 1].description.clone());
            }
            i = i - 1;
        }
        None
    }

    /// Number of recorded batches.
    pub fn history_count(&self) -> (r: usize)
        ensures
            r == self.history@.len(),
    {
        self.history.len()
    }

    /// Number of batches not yet undone.
    pub fn undoable_count(&self) -> (r: usize)
        ensures
            r == undoable(self.history@),
    {
        let mut n: usize = 0;
        let mut i: usize = 0;
        while i < self.history.len()
            invariant
                0 <= i <= self.history@.len(),
                n == undoable(self.history@.subrange(0, i as int)),
                n <= i,
            decreases self.history.len() - i,
        {
            assert(self.history@.subrange(0, i + 1).drop_last() =~= self.history@.subrange(0, i as int));
            if !self.history[i].undone {
                n = n + 1;
            }
            i = i + 1;
        }
        assert(self.history@.subrange(0, i as int) =~= self.history@);
        n
    }
}

/// Whether `after` is `before` with batch `i` marked undone.
pub open spec fn undone_at(before: Seq<BatchOperation>, after: Seq<BatchOperation>, i: int) -> bool {
    &&& after.len() == before.len()
    &&& 0 <= i < before.len()
    &&& after[i].undone
    &&& after[i].id == before[i].id
    &&& after[i].description == before[i].description
    &&& after[i].operations@.len() == before[i].operations@.len()
    &&& after[i].timestamp == before[i].timestamp
    &&& forall|j: int| 0 <= j < before.len() && j != i ==> after[j] == before[j]
}

/// Whether `p` carries the description of `b` and its operations newest first.
pub open spec fn pending_of(b: BatchOperation, p: PendingUndo) -> bool {
    &&& p.description == b.description
    &&& p.operations@ == b.operations@.reverse()
}

impl Default for UndoManager {
    fn default() -> (r: UndoManager)
        ensures
            r.history@.len() == 0,
            r.max_history == 50,
    {
        UndoManager::new(50)
    }
}

} // verus!
