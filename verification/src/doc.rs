//! The data model: a versioned document holding an ordered sequence of
//! task records, together with its optimistic-concurrency revision counter.

use vstd::prelude::*;

verus! {

/// One record of the document's payload.
#[derive(Clone, Debug)]
pub struct Task {
    pub id: String,
    pub title: String,
    pub status: String,
}

/// Mathematical model of a `Task`: its three fields as character sequences.
#[verifier::ext_equal]
pub struct TaskView {
    pub id: Seq<char>,
    pub title: Seq<char>,
    pub status: Seq<char>,
}

impl View for Task {
    type V = TaskView;

    open spec fn view(&self) -> TaskView {
        TaskView { id: self.id@, title: self.title@, status: self.status@ }
    }
}

/// The versioned document: a schema tag, a monotonic write counter,
/// a timestamp (seconds since the Unix epoch), and the payload.
#[derive(Clone, Debug)]
pub struct TaskData {
    pub version: u32,
    pub rev: u64,
    pub updated_at: i64,
    pub tasks: Vec<Task>,
}

/// Mathematical model of a `TaskData`.
#[verifier::ext_equal]
pub struct DocView {
    pub version: u32,
    pub rev: u64,
    pub updated_at: i64,
    pub tasks: Seq<TaskView>,
}

/// The models of a sequence of records.
pub open spec fn views_of_tasks(ts: Seq<Task>) -> Seq<TaskView> {
    ts.map_values(|t: Task| t@)
}

impl View for TaskData {
    type V = DocView;

    open spec fn view(&self) -> DocView {
        DocView {
            version: self.version,
            rev: self.rev,
            updated_at: self.updated_at,
            tasks: views_of_tasks(self.tasks@),
        }
    }
}

/// The state of a document that has never been written: revision 0 and an
/// empty payload. A read of a missing file returns this.
pub open spec fn spec_default_doc(now: i64) -> DocView {
    DocView { version: 1, rev: 0, updated_at: now, tasks: Seq::empty() }
}

/// Builds the default document for a path that has never been written.
pub fn default_task_data(now: i64) -> (r: TaskData)
    ensures
        r@ == spec_default_doc(now),
{
    let r = TaskData { version: 1, rev: 0, updated_at: now, tasks: Vec::new() };
    proof {
        assert(r@.tasks =~= spec_default_doc(now).tasks);
        assert(r@ =~= spec_default_doc(now));
    }
    r
}

} // verus!
