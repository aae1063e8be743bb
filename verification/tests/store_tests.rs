use taskstore::codec::encode_doc;
use taskstore::store::{read_content, WriteAttempt, WriteCommand, WriteEvent};
use taskstore::{AtomicWriteError, AtomicYamlWriter, Task, TaskData};

fn task(id: &str, title: &str, status: &str) -> Task {
    Task { id: id.to_string(), title: title.to_string(), status: status.to_string() }
}

fn doc(rev: u64, tasks: Vec<Task>) -> TaskData {
    TaskData { version: 1, rev, updated_at: 1700000000, tasks }
}

/// An in-memory stand-in for the writer's filesystem: the target's
/// content, the temporary file, and the lock artifact.
struct FakeDisk {
    target: Option<String>,
    temp: Option<String>,
    lock_held: bool,
    lock_artifact: bool,
    /// Commands at which the disk injects a failure.
    fail_on: Vec<&'static str>,
    /// A second writer already holds the lock.
    contended: bool,
    /// The names of the commands performed, in order.
    log: Vec<&'static str>,
}

impl FakeDisk {
    fn new(target: Option<String>) -> FakeDisk {
        FakeDisk {
            target,
            temp: None,
            lock_held: false,
            lock_artifact: false,
            fail_on: vec![],
            contended: false,
            log: vec![],
        }
    }

    fn failing(target: Option<String>, fail_on: &'static str) -> FakeDisk {
        let mut d = FakeDisk::new(target);
        d.fail_on = vec![fail_on];
        d
    }

    fn fails(&self, name: &'static str) -> bool {
        self.fail_on.contains(&name)
    }

    /// Performs one command and reports what happened.
    fn perform(&mut self, cmd: &WriteCommand) -> WriteEvent {
        match cmd {
            WriteCommand::AcquireLock => {
                self.log.push("acquire_lock");
                if self.contended {
                    WriteEvent::LockBusy
                } else if self.fails("acquire_lock") {
                    WriteEvent::FsFailed("cannot open lock artifact".to_string())
                } else {
                    self.lock_held = true;
                    self.lock_artifact = true;
                    WriteEvent::LockAcquired
                }
            }
            WriteCommand::ReadCurrent => {
                self.log.push("read_current");
                if self.fails("read_current") {
                    WriteEvent::FsFailed("cannot read target".to_string())
                } else {
                    WriteEvent::Current(self.target.clone())
                }
            }
            WriteCommand::WriteTemp(text) => {
                self.log.push("write_temp");
                if self.fails("write_temp") {
                    self.temp = Some(String::new());
                    WriteEvent::FsFailed("cannot write temporary".to_string())
                } else {
                    self.temp = Some(text.clone());
                    WriteEvent::Completed
                }
            }
            WriteCommand::SyncTemp => {
                self.log.push("sync_temp");
                if self.fails("sync_temp") {
                    WriteEvent::FsFailed("cannot sync temporary".to_string())
                } else {
                    WriteEvent::Completed
                }
            }
            WriteCommand::SyncDir => {
                self.log.push("sync_dir");
                if self.fails("sync_dir") {
                    WriteEvent::FsFailed("cannot sync directory".to_string())
                } else {
                    WriteEvent::Completed
                }
            }
            WriteCommand::Rename => {
                self.log.push("rename");
                if self.fails("rename") {
                    WriteEvent::FsFailed("cannot rename".to_string())
                } else {
                    self.target = self.temp.take();
                    WriteEvent::Completed
                }
            }
            WriteCommand::RemoveLockArtifact => {
                self.log.push("remove_lock_artifact");
                self.lock_held = false;
                self.lock_artifact = false;
                WriteEvent::Completed
            }
            WriteCommand::RemoveTemp => {
                self.log.push("remove_temp");
                self.temp = None;
                WriteEvent::Completed
            }
            WriteCommand::ReleaseLock => {
                self.log.push("release_lock");
                self.lock_held = false;
                WriteEvent::Completed
            }
            WriteCommand::Finish => WriteEvent::Completed,
        }
    }
}

/// Runs one whole write attempt against the fake disk.
fn run_write(
    disk: &mut FakeDisk,
    data: &TaskData,
    expected_rev: Option<u64>,
) -> Result<(), AtomicWriteError> {
    let (mut attempt, mut cmd) = WriteAttempt::new(data, expected_rev);
    loop {
        if attempt.is_done() {
            return attempt.take_result();
        }
        let event = disk.perform(&cmd);
        cmd = attempt.step(event);
    }
}

fn read_disk(disk: &FakeDisk) -> TaskData {
    read_content(disk.target.as_deref(), 1700000000).expect("reads")
}

#[test]
fn basic_write_and_read() {
    let mut disk = FakeDisk::new(None);
    let d = doc(1, vec![task("task-1", "Test task", "pending")]);
    run_write(&mut disk, &d, None).expect("writes");
    let back = read_disk(&disk);
    assert_eq!(back.rev, 1);
    assert_eq!(back.tasks.len(), 1);
    assert_eq!(back.tasks[0].id, "task-1");
}

#[test]
fn missing_file_reads_as_default() {
    let d = read_content(None, 123).expect("reads");
    assert_eq!(d.version, 1);
    assert_eq!(d.rev, 0);
    assert_eq!(d.updated_at, 123);
    assert!(d.tasks.is_empty());
}

#[test]
fn corrupt_target_surfaces_serialization_error() {
    let r = read_content(Some("not a document"), 0);
    assert!(matches!(r, Err(AtomicWriteError::Serialization { .. })));
}

#[test]
fn conflict_detection() {
    // Starting from no file: an unconditional write persists rev 1, a
    // conditional write against rev 1 persists rev 2, and a second
    // writer still expecting rev 1 fails with the true current rev.
    let mut disk = FakeDisk::new(None);
    run_write(&mut disk, &doc(1, vec![]), None).expect("first write");
    assert_eq!(read_disk(&disk).rev, 1);

    run_write(&mut disk, &doc(2, vec![task("b", "B", "pending")]), Some(1)).expect("second write");
    assert_eq!(read_disk(&disk).rev, 2);

    let stale = run_write(&mut disk, &doc(3, vec![task("c", "C", "pending")]), Some(1));
    match stale {
        Err(AtomicWriteError::Conflict { expected, found }) => {
            assert_eq!(expected, 1);
            assert_eq!(found, 2);
        }
        other => panic!("expected a conflict, got {:?}", other),
    }
    // The failed attempt changed nothing.
    let back = read_disk(&disk);
    assert_eq!(back.rev, 2);
    assert_eq!(back.tasks.len(), 1);
    assert_eq!(back.tasks[0].id, "b");
    assert!(disk.temp.is_none());
    assert!(!disk.lock_held);
}

#[test]
fn contention_fails_immediately_with_locked() {
    let mut disk = FakeDisk::new(None);
    disk.contended = true;
    let r = run_write(&mut disk, &doc(1, vec![]), None);
    assert!(matches!(r, Err(AtomicWriteError::Locked)));
    // Exactly one probe of the lock; nothing else was attempted.
    assert_eq!(disk.log, vec!["acquire_lock"]);
    assert!(disk.target.is_none());
}

#[test]
fn injected_failure_between_temp_write_and_rename_leaves_target_intact() {
    let mut disk = FakeDisk::new(None);
    let before = doc(1, vec![task("keep", "Keep me", "pending")]);
    run_write(&mut disk, &before, None).expect("seed write");
    let before_bytes = disk.target.clone().expect("target exists");

    for failure in ["sync_temp", "sync_dir", "rename"] {
        let mut d2 = FakeDisk::failing(disk.target.clone(), failure);
        let r = run_write(&mut d2, &doc(2, vec![task("x", "X", "pending")]), Some(1));
        assert!(matches!(r, Err(AtomicWriteError::Io { .. })), "failure at {}", failure);
        // The target is byte-identical and no temporary file survives.
        assert_eq!(d2.target.as_ref(), Some(&before_bytes));
        assert!(d2.temp.is_none());
        assert!(!d2.lock_held);
    }
}

#[test]
fn failed_temp_write_is_cleaned_up() {
    let mut disk = FakeDisk::failing(None, "write_temp");
    let r = run_write(&mut disk, &doc(1, vec![]), None);
    assert!(matches!(r, Err(AtomicWriteError::Io { .. })));
    assert!(disk.temp.is_none());
    assert!(disk.target.is_none());
    assert!(!disk.lock_held);
    assert!(disk.log.contains(&"remove_temp"));
    assert!(disk.log.contains(&"release_lock"));
}

#[test]
fn successful_write_leaves_no_artifacts() {
    let mut disk = FakeDisk::new(None);
    run_write(&mut disk, &doc(1, vec![]), None).expect("writes");
    assert!(disk.temp.is_none());
    assert!(!disk.lock_artifact);
    assert!(!disk.lock_held);
    assert_eq!(
        disk.log,
        vec!["acquire_lock", "write_temp", "sync_temp", "sync_dir", "rename",
            "remove_lock_artifact"],
    );
}

#[test]
fn conditional_write_rereads_under_the_lock() {
    let mut disk = FakeDisk::new(None);
    run_write(&mut disk, &doc(1, vec![]), None).expect("seed");
    disk.log.clear();
    run_write(&mut disk, &doc(2, vec![]), Some(1)).expect("conditional");
    assert_eq!(
        disk.log,
        vec!["acquire_lock", "read_current", "write_temp", "sync_temp", "sync_dir", "rename",
            "remove_lock_artifact"],
    );
}

#[test]
fn written_content_is_the_exact_encoding() {
    let mut disk = FakeDisk::new(None);
    let d = doc(5, vec![task("a", "A", "done")]);
    run_write(&mut disk, &d, None).expect("writes");
    assert_eq!(disk.target.as_deref(), Some(encode_doc(&d).as_str()));
}

#[test]
fn writer_paths_are_derived_from_the_target() {
    let w = AtomicYamlWriter::new("/tmp/state.yml".to_string());
    assert_eq!(w.lock_path().as_str(), "/tmp/state.yml.lock");
    assert_eq!(w.temp_path().as_str(), "/tmp/state.yml.tmp");
}
