//! The store: typed errors, the writer handle, conflict detection, and
//! the crash-safe write protocol.
//!
//! The protocol is a step machine. The caller owns the filesystem: it
//! performs exactly the command each step returns (lock, read, write
//! temporary, sync, rename, clean up) and reports what happened. The
//! machine decides every transition, and its invariant ties each phase
//! to what the attempt has done to the disk, so that a failed attempt
//! provably leaves the target untouched and no temporary file behind,
//! and a successful one leaves exactly the encoded document.

use vstd::prelude::*;
use crate::doc::{TaskData, DocView, spec_default_doc, default_task_data, views_of_tasks, Task};
use crate::codec::{spec_encode, spec_decode, encode_doc, decode_doc, wf_doc, lemma_decode_encode};

verus! {

/// The typed failures of the store.
#[derive(Clone, Debug)]
pub enum AtomicWriteError {
    /// The document changed since the caller last observed it.
    Conflict { expected: u64, found: u64 },
    /// The lock was unavailable at the moment of the attempt.
    Locked,
    /// A filesystem failure; fatal for the current operation.
    Io { detail: String },
    /// The on-disk content does not parse as a valid document.
    Serialization { detail: String },
}

/// Relies on chrono's `Utc::now` for the wall clock. Nothing is assumed
/// of the value: every caller works for an arbitrary timestamp.
#[verifier::external_body]
pub fn current_timestamp() -> i64 {
    chrono::Utc::now().timestamp()
}

/// Handle for one document path.
pub struct AtomicYamlWriter {
    pub path: String,
}

impl AtomicYamlWriter {
    pub fn new(path: String) -> (r: Self)
        ensures
            r.path == path,
    {
        AtomicYamlWriter { path }
    }

    /// The lock artifact's path: the target path with `.lock` appended.
    pub fn lock_path(&self) -> (r: String)
        ensures
            r@ == self.path@ + ".lock"@,
    {
        let mut s = self.path.clone();
        s.append(".lock");
        s
    }

    /// The temporary file's path: the target path with `.tmp` appended.
    pub fn temp_path(&self) -> (r: String)
        ensures
            r@ == self.path@ + ".tmp"@,
    {
        let mut s = self.path.clone();
        s.append(".tmp");
        s
    }
}

/// Interprets what a shared-lock read found. A missing target is the
/// default document — revision 0, empty payload — and is never created
/// by reading; existing content must decode exactly.
pub fn read_content(content: Option<&str>, now: i64) -> (r: Result<TaskData, AtomicWriteError>)
    ensures
        match content {
            None => (r matches Ok(d) && d@ == spec_default_doc(now)),
            Some(c) => match spec_decode(c@) {
                Some(dv) => (r matches Ok(d) && d@ == dv),
                None => (r matches Err(e) && e is Serialization),
            },
        },
{
    match content {
        None => Ok(default_task_data(now)),
        Some(c) => decode_doc(c),
    }
}

/// Whether a write may proceed against the current on-disk content:
/// an unconditional write always may; a conditional one only when the
/// target is missing or holds exactly the expected revision.
pub open spec fn write_permitted(expected: Option<u64>, current: Option<Seq<char>>) -> bool {
    match expected {
        None => true,
        Some(e) => match current {
            None => true,
            Some(c) => match spec_decode(c) {
                Some(dv) => dv.rev == e,
                None => false,
            },
        },
    }
}

/// The phases of one write attempt. In each non-terminal phase exactly
/// one command is outstanding; the next event reports its outcome.
#[derive(Clone, Copy, Debug, PartialEq, Eq, Structural)]
pub enum WritePhase {
    /// Waiting for the non-blocking exclusive lock attempt.
    AwaitLock,
    /// Waiting for the target's current content, read under the lock.
    AwaitCurrent,
    /// Waiting for the temporary file to be written.
    AwaitTempWrite,
    /// Waiting for the temporary file's bytes to be flushed.
    AwaitTempSync,
    /// Waiting for the containing directory to be flushed.
    AwaitDirSync,
    /// Waiting for the atomic rename of temporary onto target.
    AwaitRename,
    /// Waiting for the lock release and lock-artifact removal.
    AwaitLockCleanup,
    /// Waiting for the temporary file's removal on a failure path.
    AwaitTempRemove,
    /// Waiting for the lock release on a failure path.
    AwaitRelease,
    /// The attempt is over.
    Done,
}

/// What the caller must do next, on the writer's paths.
pub enum WriteCommand {
    /// Open or create the lock artifact and try a non-blocking
    /// exclusive lock on it.
    AcquireLock,
    /// Read the target's full content if the target exists.
    ReadCurrent,
    /// Create or truncate the temporary file, in the target's
    /// directory, and write this text to it.
    WriteTemp(String),
    /// Flush the temporary file's bytes to disk.
    SyncTemp,
    /// Flush the containing directory.
    SyncDir,
    /// Atomically rename the temporary file onto the target.
    Rename,
    /// Release the lock and delete the lock artifact, ignoring
    /// failure of the deletion.
    RemoveLockArtifact,
    /// Delete the temporary file, ignoring failure.
    RemoveTemp,
    /// Release the lock without touching any file.
    ReleaseLock,
    /// Nothing remains; take the result.
    Finish,
}

/// What the caller reports back.
pub enum WriteEvent {
    /// The exclusive lock was obtained.
    LockAcquired,
    /// The lock is held by another writer.
    LockBusy,
    /// The target's content, or `None` if the target does not exist.
    Current(Option<String>),
    /// The outstanding filesystem operation succeeded.
    Completed,
    /// The outstanding filesystem operation failed.
    FsFailed(String),
}

/// Which events can answer which phase.
pub open spec fn event_fits(phase: WritePhase, event: WriteEvent) -> bool {
    match phase {
        WritePhase::AwaitLock => event is LockAcquired || event is LockBusy || event is FsFailed,
        WritePhase::AwaitCurrent => event is Current || event is FsFailed,
        WritePhase::AwaitTempWrite => event is Completed || event is FsFailed,
        WritePhase::AwaitTempSync => event is Completed || event is FsFailed,
        WritePhase::AwaitDirSync => event is Completed || event is FsFailed,
        WritePhase::AwaitRename => event is Completed || event is FsFailed,
        WritePhase::AwaitLockCleanup => event is Completed,
        WritePhase::AwaitTempRemove => event is Completed,
        WritePhase::AwaitRelease => event is Completed,
        WritePhase::Done => false,
    }
}

/// One write attempt: the text to persist, the optimistic-concurrency
/// expectation, and a model of what the attempt has done to the disk.
pub struct WriteAttempt {
    pub phase: WritePhase,
    pub encoded: String,
    pub expected_rev: Option<u64>,
    pub outcome: Option<AtomicWriteError>,
    /// The document being written.
    pub doc: Ghost<DocView>,
    /// Whether this attempt holds the exclusive lock.
    pub lock_held: Ghost<bool>,
    /// Whether the temporary file may exist on disk.
    pub temp_written: Ghost<bool>,
    /// Whether the target has been replaced by the new content.
    pub target_replaced: Ghost<bool>,
}

impl WriteAttempt {
    /// The machine's invariant: what each phase implies about the disk.
    pub open spec fn inv(&self) -> bool {
        &&& self.encoded@ == spec_encode(self.doc@)
        &&& (self.phase == WritePhase::AwaitLock ==> !self.lock_held@ && !self.temp_written@
            && !self.target_replaced@ && self.outcome is None)
        &&& (self.phase == WritePhase::AwaitCurrent ==> self.lock_held@ && !self.temp_written@
            && !self.target_replaced@ && self.outcome is None && self.expected_rev is Some)
        &&& (self.phase == WritePhase::AwaitTempWrite ==> self.lock_held@ && !self.temp_written@
            && !self.target_replaced@ && self.outcome is None)
        &&& (self.phase == WritePhase::AwaitTempSync ==> self.lock_held@ && self.temp_written@
            && !self.target_replaced@ && self.outcome is None)
        &&& (self.phase == WritePhase::AwaitDirSync ==> self.lock_held@ && self.temp_written@
            && !self.target_replaced@ && self.outcome is None)
        &&& (self.phase == WritePhase::AwaitRename ==> self.lock_held@ && self.temp_written@
            && !self.target_replaced@ && self.outcome is None)
        &&& (self.phase == WritePhase::AwaitLockCleanup ==> self.lock_held@ && !self.temp_written@
            && self.target_replaced@ && self.outcome is None)
        &&& (self.phase == WritePhase::AwaitTempRemove ==> self.lock_held@
            && !self.target_replaced@ && self.outcome is Some)
        &&& (self.phase == WritePhase::AwaitRelease ==> self.lock_held@ && !self.temp_written@
            && !self.target_replaced@ && self.outcome is Some)
        &&& (self.phase == WritePhase::Done ==> !self.lock_held@ && !self.temp_written@)
        &&& (self.phase == WritePhase::Done && self.outcome is Some ==> !self.target_replaced@)
        &&& (self.phase == WritePhase::Done && self.outcome is None ==> self.target_replaced@)
    }

    /// Starts a write attempt; the first command tries the lock.
    pub fn new(data: &TaskData, expected_rev: Option<u64>) -> (r: (WriteAttempt, WriteCommand))
        ensures
            r.0.inv(),
            r.0.phase == WritePhase::AwaitLock,
            r.0.doc@ == data@,
            r.0.expected_rev == expected_rev,
            r.1 is AcquireLock,
    {
        let encoded = encode_doc(data);
        let attempt = WriteAttempt {
            phase: WritePhase::AwaitLock,
            encoded,
            expected_rev,
            outcome: None,
            doc: Ghost(data@),
            lock_held: Ghost(false),
            temp_written: Ghost(false),
            target_replaced: Ghost(false),
        };
        (attempt, WriteCommand::AcquireLock)
    }

    /// Feeds the outcome of the outstanding command and returns the
    /// next one. Every transition is pinned below: contention fails
    /// immediately with `Locked`; a stale expectation fails with
    /// `Conflict` carrying the true current revision; any filesystem
    /// failure turns onto the cleanup path, which removes the
    /// temporary file and releases the lock before finishing.
    pub fn step(&mut self, event: WriteEvent) -> (r: WriteCommand)
        requires
            old(self).inv(),
            event_fits(old(self).phase, event),
        ensures
            final(self).inv(),
            final(self).doc == old(self).doc,
            final(self).expected_rev == old(self).expected_rev,
            final(self).encoded@ == old(self).encoded@,
            final(self).target_replaced@ == old(self).target_replaced@ || (old(self).phase
                == WritePhase::AwaitRename && event is Completed),
            // Contention: an occupied lock fails immediately, changing nothing.
            old(self).phase == WritePhase::AwaitLock && event is LockBusy ==> final(self).phase
                == WritePhase::Done && final(self).outcome == Some(AtomicWriteError::Locked)
                && r is Finish,
            // The lock could not even be opened.
            old(self).phase == WritePhase::AwaitLock && event is FsFailed ==> final(self).phase
                == WritePhase::Done && (final(self).outcome matches Some(e) && e is Io)
                && r is Finish,
            // Lock held: conditional writes re-read the current revision
            // under the lock; unconditional ones go straight to the
            // temporary file.
            old(self).phase == WritePhase::AwaitLock && event is LockAcquired ==> final(self).lock_held@ && match old(self).expected_rev {
                Some(_) => final(self).phase == WritePhase::AwaitCurrent && r is ReadCurrent,
                None => final(self).phase == WritePhase::AwaitTempWrite && (r matches
                WriteCommand::WriteTemp(t) && t@ == spec_encode(old(self).doc@)),
            },
            // The conflict check, against the revision read under the lock.
            old(self).phase == WritePhase::AwaitCurrent ==> (event matches WriteEvent::Current(
                Some(c),
            ) ==> match spec_decode(c@) {
                None => final(self).phase == WritePhase::AwaitRelease && (final(self).outcome
                    matches Some(e) && e is Serialization) && r is ReleaseLock,
                Some(dv) => if dv.rev == old(self).expected_rev->0 {
                    final(self).phase == WritePhase::AwaitTempWrite && (r matches
                    WriteCommand::WriteTemp(t) && t@ == spec_encode(old(self).doc@))
                } else {
                    final(self).phase == WritePhase::AwaitRelease && final(self).outcome == Some(
                        (AtomicWriteError::Conflict {
                            expected: old(self).expected_rev->0,
                            found: dv.rev,
                        }),
                    ) && r is ReleaseLock
                },
            }),
            // A missing target cannot conflict.
            old(self).phase == WritePhase::AwaitCurrent && event == (WriteEvent::Current(None))
                ==> final(self).phase == WritePhase::AwaitTempWrite && (r matches
            WriteCommand::WriteTemp(t) && t@ == spec_encode(old(self).doc@)),
            old(self).phase == WritePhase::AwaitCurrent && event is FsFailed ==> final(self).phase
                == WritePhase::AwaitRelease && (final(self).outcome matches Some(e) && e is Io)
                && r is ReleaseLock,
            // The durable chain: temp write, temp sync, directory sync,
            // rename; each failure diverts to temp removal.
            old(self).phase == WritePhase::AwaitTempWrite && event is Completed ==> final(self).phase == WritePhase::AwaitTempSync && r is SyncTemp,
            old(self).phase == WritePhase::AwaitTempSync && event is Completed ==> final(self).phase == WritePhase::AwaitDirSync && r is SyncDir,
            old(self).phase == WritePhase::AwaitDirSync && event is Completed ==> final(self).phase == WritePhase::AwaitRename && r is Rename,
            (old(self).phase == WritePhase::AwaitTempWrite || old(self).phase
                == WritePhase::AwaitTempSync || old(self).phase == WritePhase::AwaitDirSync || old(self).phase == WritePhase::AwaitRename) && event is FsFailed ==> final(self).phase
                == WritePhase::AwaitTempRemove && (final(self).outcome matches Some(e)
                && e is Io) && r is RemoveTemp,
            // Only after the rename is the new content the target; the
            // lock artifact is then removed.
            old(self).phase == WritePhase::AwaitRename && event is Completed ==> final(self).phase
                == WritePhase::AwaitLockCleanup && r is RemoveLockArtifact,
            old(self).phase == WritePhase::AwaitLockCleanup ==> final(self).phase
                == WritePhase::Done && final(self).outcome is None && r is Finish,
            // Failure paths keep their error through cleanup.
            old(self).phase == WritePhase::AwaitTempRemove ==> final(self).phase
                == WritePhase::AwaitRelease && final(self).outcome == old(self).outcome
                && r is ReleaseLock,
            old(self).phase == WritePhase::AwaitRelease ==> final(self).phase == WritePhase::Done
                && final(self).outcome == old(self).outcome && r is Finish,
    {
        match self.phase {
            WritePhase::AwaitLock => match event {
                WriteEvent::LockAcquired => {
                    proof {
                        self.lock_held@ = true;
                    }
                    match self.expected_rev {
                        Some(_) => {
                            self.phase = WritePhase::AwaitCurrent;
                            WriteCommand::ReadCurrent
                        },
                        None => {
                            self.phase = WritePhase::AwaitTempWrite;
                            WriteCommand::WriteTemp(self.encoded.clone())
                        },
                    }
                },
                WriteEvent::LockBusy => {
                    self.phase = WritePhase::Done;
                    self.outcome = Some(AtomicWriteError::Locked);
                    WriteCommand::Finish
                },
                _ => {
                    let detail = take_detail(event);
                    self.phase = WritePhase::Done;
                    self.outcome = Some(AtomicWriteError::Io { detail });
                    WriteCommand::Finish
                },
            },
            WritePhase::AwaitCurrent => match event {
                WriteEvent::Current(content) => match content {
                    None => {
                        self.phase = WritePhase::AwaitTempWrite;
                        WriteCommand::WriteTemp(self.encoded.clone())
                    },
                    Some(c) => match decode_doc(c.as_str()) {
                        Err(e) => {
                            self.phase = WritePhase::AwaitRelease;
                            self.outcome = Some(e);
                            WriteCommand::ReleaseLock
                        },
                        Ok(cur) => {
                            let expected = match self.expected_rev {
                                Some(e) => e,
                                None => 0,
                            };
                            if cur.rev == expected {
                                self.phase = WritePhase::AwaitTempWrite;
                                WriteCommand::WriteTemp(self.encoded.clone())
                            } else {
                                self.phase = WritePhase::AwaitRelease;
                                self.outcome = Some(
                                    AtomicWriteError::Conflict { expected, found: cur.rev },
                                );
                                WriteCommand::ReleaseLock
                            }
                        },
                    },
                },
                _ => {
                    let detail = take_detail(event);
                    self.phase = WritePhase::AwaitRelease;
                    self.outcome = Some(AtomicWriteError::Io { detail });
                    WriteCommand::ReleaseLock
                },
            },
            WritePhase::AwaitTempWrite => match event {
                WriteEvent::Completed => {
                    proof {
                        self.temp_written@ = true;
                    }
                    self.phase = WritePhase::AwaitTempSync;
                    WriteCommand::SyncTemp
                },
                _ => {
                    let detail = take_detail(event);
                    proof {
                        self.temp_written@ = true;
                    }
                    self.phase = WritePhase::AwaitTempRemove;
                    self.outcome = Some(AtomicWriteError::Io { detail });
                    WriteCommand::RemoveTemp
                },
            },
            WritePhase::AwaitTempSync => match event {
                WriteEvent::Completed => {
                    self.phase = WritePhase::AwaitDirSync;
                    WriteCommand::SyncDir
                },
                _ => {
                    let detail = take_detail(event);
                    self.phase = WritePhase::AwaitTempRemove;
                    self.outcome = Some(AtomicWriteError::Io { detail });
                    WriteCommand::RemoveTemp
                },
            },
            WritePhase::AwaitDirSync => match event {
                WriteEvent::Completed => {
                    self.phase = WritePhase::AwaitRename;
                    WriteCommand::Rename
                },
                _ => {
                    let detail = take_detail(event);
                    self.phase = WritePhase::AwaitTempRemove;
                    self.outcome = Some(AtomicWriteError::Io { detail });
                    WriteCommand::RemoveTemp
                },
            },
            WritePhase::AwaitRename => match event {
                WriteEvent::Completed => {
                    proof {
                        self.temp_written@ = false;
                        self.target_replaced@ = true;
                    }
                    self.phase = WritePhase::AwaitLockCleanup;
                    WriteCommand::RemoveLockArtifact
                },
                _ => {
                    let detail = take_detail(event);
                    self.phase = WritePhase::AwaitTempRemove;
                    self.outcome = Some(AtomicWriteError::Io { detail });
                    WriteCommand::RemoveTemp
                },
            },
            WritePhase::AwaitLockCleanup => {
                proof {
                    self.lock_held@ = false;
                }
                self.phase = WritePhase::Done;
                WriteCommand::Finish
            },
            WritePhase::AwaitTempRemove => {
                proof {
                    self.temp_written@ = false;
                }
                self.phase = WritePhase::AwaitRelease;
                WriteCommand::ReleaseLock
            },
            WritePhase::AwaitRelease => {
                proof {
                    self.lock_held@ = false;
                }
                self.phase = WritePhase::Done;
                WriteCommand::Finish
            },
            WritePhase::Done => WriteCommand::Finish,
        }
    }

    /// Whether the attempt has finished.
    pub fn is_done(&self) -> (r: bool)
        ensures
            r == (self.phase == WritePhase::Done),
    {
        match self.phase {
            WritePhase::Done => true,
            _ => false,
        }
    }

    /// The attempt's result; consumes the finished attempt.
    pub fn take_result(self) -> (r: Result<(), AtomicWriteError>)
        requires
            self.phase == WritePhase::Done,
        ensures
            match self.outcome {
                None => r is Ok,
                Some(e) => r == Err::<(), AtomicWriteError>(e),
            },
    {
        match self.outcome {
            None => Ok(()),
            Some(e) => Err(e),
        }
    }
}

/// The detail string of a failure event.
fn take_detail(event: WriteEvent) -> (r: String)
{
    match event {
        WriteEvent::FsFailed(d) => d,
        _ => String::new(),
    }
}

/// Law — no partial state: however a finished attempt failed (lock
/// contention, conflict, undecodable content, or an injected filesystem
/// failure anywhere in the chain, rename included), the target was
/// never replaced, no temporary file survives, and the lock is free.
pub proof fn lemma_failed_attempt_leaves_no_trace(m: &WriteAttempt)
    requires
        m.inv(),
        m.phase == WritePhase::Done,
        m.outcome is Some,
    ensures
        !m.target_replaced@,
        !m.temp_written@,
        !m.lock_held@,
{
}

/// Law — cleanup and durability: a finished successful attempt replaced
/// the target with exactly the encoded document, and neither the
/// temporary file nor the lock survives.
pub proof fn lemma_successful_attempt_clean(m: &WriteAttempt)
    requires
        m.inv(),
        m.phase == WritePhase::Done,
        m.outcome is None,
    ensures
        m.target_replaced@,
        !m.temp_written@,
        !m.lock_held@,
        m.encoded@ == spec_encode(m.doc@),
{
}

/// Law — round trip through the store: what a successful attempt put
/// on disk decodes back to exactly the document that was written, so a
/// later read reproduces its payload, revision and schema version.
pub proof fn lemma_successful_attempt_reads_back(m: &WriteAttempt)
    requires
        m.inv(),
        m.phase == WritePhase::Done,
        m.outcome is None,
        wf_doc(m.doc@),
    ensures
        spec_decode(m.encoded@) == Some(m.doc@),
{
    lemma_decode_encode(m.doc@);
}


// ---------------------------------------------------------------------
// The compare-and-swap helper's verified pieces. The caller's loop
// performs the filesystem work; these fix the candidate it writes and
// when it retries.
// ---------------------------------------------------------------------

/// Builds the candidate document for a compare-and-swap: the new
/// payload over the current document, with the revision advanced by
/// exactly one.
pub fn next_candidate(current: &TaskData, tasks: Vec<Task>, now: i64) -> (r: TaskData)
    requires
        current.rev < u64::MAX,
    ensures
        r@.rev == current@.rev + 1,
        r@.version == current@.version,
        r@.updated_at == now,
        r@.tasks == views_of_tasks(tasks@),
{
    TaskData { version: current.version, rev: current.rev + 1, updated_at: now, tasks }
}

/// The retry decision of the compare-and-swap helper: retry exactly on
/// a conflict, and only while attempts remain. Every other outcome —
/// success, contention, I/O or serialization failure — returns at once.
pub fn cas_should_retry(
    result: &Result<(), AtomicWriteError>,
    attempt: u32,
    max_retries: u32,
) -> (r: bool)
    ensures
        r == (result matches Err(AtomicWriteError::Conflict { .. }) && attempt < max_retries),
{
    match result {
        Err(AtomicWriteError::Conflict { .. }) => attempt < max_retries,
        _ => false,
    }
}

proof fn lemma_rev_chain_prefix(revs: Seq<u64>, i: int)
    requires
        0 <= i < revs.len(),
        forall|j: int| 1 <= j < revs.len() ==> #[trigger] revs[j] == revs[j - 1] + 1,
    ensures
        revs[i] == revs[0] + i,
    decreases i,
{
    if i > 0 {
        lemma_rev_chain_prefix(revs, i - 1);
    }
}

/// Law — serialized compare-and-swap: in a chain of successful writes
/// where each one saw the revision its predecessor left (which is what
/// the conflict check under the lock enforces) and advanced it by one,
/// the k-th write saw revision `revs[0] + k`, no two writes succeeded
/// against the same revision, and the chain's last revision is the
/// first plus the number of advances.
pub proof fn lemma_cas_serialization(revs: Seq<u64>)
    requires
        revs.len() >= 1,
        forall|j: int| 1 <= j < revs.len() ==> #[trigger] revs[j] == revs[j - 1] + 1,
    ensures
        forall|i: int| 0 <= i < revs.len() ==> #[trigger] revs[i] == revs[0] + i,
        forall|i: int, j: int| 0 <= i < j < revs.len() ==> revs[i] != revs[j],
        revs[revs.len() - 1] == revs[0] + revs.len() - 1,
{
    assert forall|i: int| 0 <= i < revs.len() implies #[trigger] revs[i] == revs[0] + i by {
        lemma_rev_chain_prefix(revs, i);
    }
}

/// Law — monotonic revision: starting from the default document's
/// revision 0, after a chain of n successful sequential writes each
/// advancing the revision by one, the persisted revision is exactly n.
pub proof fn lemma_monotonic_rev(revs: Seq<u64>)
    requires
        revs.len() >= 1,
        revs[0] == 0,
        forall|j: int| 1 <= j < revs.len() ==> #[trigger] revs[j] == revs[j - 1] + 1,
    ensures
        revs[revs.len() - 1] == revs.len() - 1,
{
    lemma_cas_serialization(revs);
}

} // verus!
