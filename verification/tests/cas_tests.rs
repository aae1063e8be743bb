use taskstore::store::{cas_should_retry, next_candidate, read_content, WriteAttempt, WriteCommand,
    WriteEvent};
use taskstore::{AtomicWriteError, Task, TaskData};

fn task(id: &str, title: &str, status: &str) -> Task {
    Task { id: id.to_string(), title: title.to_string(), status: status.to_string() }
}

/// A minimal in-memory target for sequential write attempts.
struct Register {
    target: Option<String>,
}

fn run_write(
    reg: &mut Register,
    data: &TaskData,
    expected_rev: Option<u64>,
) -> Result<(), AtomicWriteError> {
    let (mut attempt, mut cmd) = WriteAttempt::new(data, expected_rev);
    let mut temp: Option<String> = None;
    loop {
        if attempt.is_done() {
            return attempt.take_result();
        }
        let event = match &cmd {
            WriteCommand::AcquireLock => WriteEvent::LockAcquired,
            WriteCommand::ReadCurrent => WriteEvent::Current(reg.target.clone()),
            WriteCommand::WriteTemp(text) => {
                temp = Some(text.clone());
                WriteEvent::Completed
            }
            WriteCommand::SyncTemp | WriteCommand::SyncDir => WriteEvent::Completed,
            WriteCommand::Rename => {
                reg.target = temp.take();
                WriteEvent::Completed
            }
            WriteCommand::RemoveLockArtifact | WriteCommand::ReleaseLock => WriteEvent::Completed,
            WriteCommand::RemoveTemp => {
                temp = None;
                WriteEvent::Completed
            }
            WriteCommand::Finish => WriteEvent::Completed,
        };
        cmd = attempt.step(event);
    }
}

fn read_reg(reg: &Register) -> TaskData {
    read_content(reg.target.as_deref(), 0).expect("reads")
}

#[test]
fn next_candidate_advances_rev_by_one() {
    let current = TaskData { version: 3, rev: 41, updated_at: 5, tasks: vec![] };
    let next = next_candidate(&current, vec![task("a", "A", "pending")], 99);
    assert_eq!(next.rev, 42);
    assert_eq!(next.version, 3);
    assert_eq!(next.updated_at, 99);
    assert_eq!(next.tasks.len(), 1);
}

#[test]
fn retry_happens_only_on_conflict_with_attempts_left() {
    let conflict: Result<(), AtomicWriteError> =
        Err(AtomicWriteError::Conflict { expected: 1, found: 2 });
    assert!(cas_should_retry(&conflict, 0, 5));
    assert!(cas_should_retry(&conflict, 4, 5));
    assert!(!cas_should_retry(&conflict, 5, 5));
    let ok: Result<(), AtomicWriteError> = Ok(());
    assert!(!cas_should_retry(&ok, 0, 5));
    let locked: Result<(), AtomicWriteError> = Err(AtomicWriteError::Locked);
    assert!(!cas_should_retry(&locked, 0, 5));
    let io: Result<(), AtomicWriteError> =
        Err(AtomicWriteError::Io { detail: "disk full".to_string() });
    assert!(!cas_should_retry(&io, 0, 5));
}

#[test]
fn n_sequential_writes_reach_rev_n() {
    // Monotonic revision: starting from the default document, each
    // writer reads the current revision and writes its successor.
    let mut reg = Register { target: None };
    for _ in 0..100 {
        let current = read_reg(&reg);
        let next = next_candidate(&current, vec![], 0);
        let expected = current.rev;
        run_write(&mut reg, &next, Some(expected)).expect("writes");
    }
    assert_eq!(read_reg(&reg).rev, 100);
}

#[test]
fn ten_contenders_with_retries_all_succeed() {
    // Ten compare-and-swap callers each advance the revision by one
    // from a shared start. Conflicts are retried; every caller
    // eventually succeeds and no two succeed against the same
    // expected revision.
    let mut reg = Register { target: None };
    run_write(&mut reg, &TaskData { version: 1, rev: 0, updated_at: 0, tasks: vec![] }, None)
        .expect("seed");

    // Every caller starts from the same stale snapshot.
    let snapshot = read_reg(&reg);
    let mut succeeded_against: Vec<u64> = Vec::new();
    for i in 0..10 {
        let mut current = TaskData {
            version: snapshot.version,
            rev: snapshot.rev,
            updated_at: snapshot.updated_at,
            tasks: vec![],
        };
        let mut attempt: u32 = 0;
        let max_retries: u32 = 20;
        loop {
            let candidate = next_candidate(&current, vec![task(&format!("task-{}", i), "T",
                "pending")], 0);
            let expected = current.rev;
            let result = run_write(&mut reg, &candidate, Some(expected));
            if result.is_ok() {
                succeeded_against.push(expected);
                break;
            }
            assert!(cas_should_retry(&result, attempt, max_retries), "caller must retry");
            attempt += 1;
            current = read_reg(&reg);
        }
    }
    assert_eq!(read_reg(&reg).rev, 10);
    succeeded_against.sort();
    for (k, e) in succeeded_against.iter().enumerate() {
        assert_eq!(*e, k as u64);
    }
}
