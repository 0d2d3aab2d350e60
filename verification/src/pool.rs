//! What the worker pool decides: the names of its workers, and what a
//! worker does with each message it receives.

use vstd::prelude::*;
use crate::text::decimal;
use crate::text::push_decimal;

verus! {

/// The name of the worker with number `i`.
pub open spec fn worker_name_text(i: nat) -> Seq<char> {
    "ThreadPool-"@ + decimal(i)
}

/// The name of the worker with number `i`: `ThreadPool-` and the number.
pub fn worker_name(i: u32) -> (s: String)
    ensures
        s@ == worker_name_text(i as nat),
{
    let mut s = String::new();
    s.append("ThreadPool-");
    push_decimal(&mut s, i as u64);
    proof {
        assert(s@ =~= worker_name_text(i as nat));
    }
    s
}

/// The names of the workers of a pool of `size` workers, numbered from 0;
/// a pool has at least one worker.
pub fn worker_names(size: u32) -> (names: Vec<String>)
    requires
        size > 0,
    ensures
        names.len() == size,
        forall|i: int| 0 <= i < size ==> (#[trigger] names[i])@ == worker_name_text(i as nat),
{
    let mut names: Vec<String> = Vec::new();
    for i in 0..size
        invariant
            names.len() == i,
            forall|j: int| 0 <= j < i ==> (#[trigger] names[j])@ == worker_name_text(j as nat),
    {
        names.push(worker_name(i));
    }
    names
}

/// The name under which a worker reports: its thread's name, or a fixed
/// one for a thread without a name.
pub open spec fn worker_id_text(thread_name: Option<Seq<char>>) -> Seq<char> {
    match thread_name {
        Some(name) => name,
        None => "Defalut id Name"@,
    }
}

/// The name under which a worker reports.
pub fn worker_id(thread_name: Option<&str>) -> (id: String)
    ensures
        id@ == worker_id_text(
            match thread_name {
                Some(name) => Some(name@),
                None => None,
            },
        ),
{
    match thread_name {
        Some(name) => String::from_str(name),
        None => String::from_str("Defalut id Name"),
    }
}

/// What a worker receives: a job to run, or the order to stop.
#[derive(Debug, Clone, Copy, PartialEq, Eq, Structural)]
pub enum MessageKind {
    Work,
    Terminate,
}

/// What a worker does next.
#[derive(Debug, Clone, Copy, PartialEq, Eq, Structural)]
pub enum WorkerAction {
    /// Run the job and wait for the next message.
    RunJob,
    /// Leave the loop.
    Exit,
}

/// The line a worker reports on a message.
pub open spec fn worker_log_text(id: Seq<char>, kind: MessageKind) -> Seq<char> {
    match kind {
        MessageKind::Terminate => "Worker "@ + id + " got a Terminate signal; Exist."@,
        MessageKind::Work => "Worker "@ + id + " got a job; executing."@,
    }
}

/// What the worker `id` does on a message of kind `kind`, and the line it
/// reports: a job is run, the order to stop ends the worker.
pub fn worker_step(id: &str, kind: MessageKind) -> (res: (WorkerAction, String))
    ensures
        res.0 == (match kind {
            MessageKind::Work => WorkerAction::RunJob,
            MessageKind::Terminate => WorkerAction::Exit,
        }),
        res.1@ == worker_log_text(id@, kind),
{
    let mut log = String::new();
    log.append("Worker ");
    log.append(id);
    match kind {
        MessageKind::Terminate => {
            log.append(" got a Terminate signal; Exist.");
            proof {
                assert(log@ =~= worker_log_text(id@, kind));
            }
            (WorkerAction::Exit, log)
        },
        MessageKind::Work => {
            log.append(" got a job; executing.");
            proof {
                assert(log@ =~= worker_log_text(id@, kind));
            }
            (WorkerAction::RunJob, log)
        },
    }
}

/// Every worker of a pool has a name of its own.
pub proof fn worker_names_distinct(i: nat, j: nat)
    requires
        worker_name_text(i) == worker_name_text(j),
    ensures
        i == j,
{
    let p = "ThreadPool-"@;
    assert(worker_name_text(i).subrange(p.len() as int, worker_name_text(i).len() as int) =~= decimal(i));
    assert(worker_name_text(j).subrange(p.len() as int, worker_name_text(j).len() as int) =~= decimal(j));
    crate::text::decimal_injective(i, j);
}

} // verus!
