//! The task queue manager: a registry of download tasks with a
//! bounded-concurrency FIFO scheduler and a duplicate-detection gate.
//!
//! Tasks whose status is `Downloading` form the active set; tasks whose
//! status is `Waiting` stand in the waiting queue, in submission order. A
//! slot that frees promotes exactly the head of the queue. Every mutating
//! operation returns the events it emitted; the host process delivers them
//! to subscribers before the operation's result is handed on.

use vstd::prelude::*;
use crate::duplicate_policy::DuplicatePolicy;
use crate::duplicate_reason::DuplicateReason;
use crate::duplicate_result::{DuplicateAction, DuplicateResult};
use crate::error::DownloadError;
use crate::progress::DownloadProgress;
use crate::status::DownloadStatus;
use crate::task::{DownloadTask, TaskId};
use crate::task_status::TaskStatus;

verus! {

/// Maximum number of concurrent downloads a manager admits by default.
pub const MAX_CONCURRENT_DOWNLOADS: usize = 3;

/// An event emitted by a mutating operation, to be delivered to subscribers.
#[derive(Debug)]
pub enum DownloadEvent {
    /// A task's status changed from `old_status` to `new_status`.
    StatusChanged { task_id: TaskId, old_status: DownloadStatus, new_status: DownloadStatus },
    /// A task's progress snapshot was updated.
    ProgressUpdated { task_id: TaskId, progress: DownloadProgress },
    /// A task completed.
    Completed { task_id: TaskId },
    /// A task failed, with the reason.
    Failed { task_id: TaskId, error: String },
}

/// Whether some task in the sequence has the given identifier.
pub open spec fn has_task_id(tasks: Seq<DownloadTask>, id: TaskId) -> bool {
    exists|i: int| 0 <= i < tasks.len() && (#[trigger] tasks[i]).id == id
}

/// The first index of the task with the given identifier.
pub open spec fn task_index(tasks: Seq<DownloadTask>, id: TaskId) -> int {
    choose|i: int| 0 <= i < tasks.len() && (#[trigger] tasks[i]).id == id
}

/// The task with the given identifier.
pub open spec fn task_by_id(tasks: Seq<DownloadTask>, id: TaskId) -> DownloadTask {
    tasks[task_index(tasks, id)]
}

/// All task identifiers are distinct.
pub open spec fn ids_distinct(tasks: Seq<DownloadTask>) -> bool {
    forall|i: int, j: int|
        0 <= i < j < tasks.len() ==> (#[trigger] tasks[i]).id != (#[trigger] tasks[j]).id
}

/// The sequence with the first occurrence of the given identifier removed.
pub open spec fn remove_first_id(ids: Seq<TaskId>, id: TaskId) -> Seq<TaskId>
    decreases ids.len(),
{
    if ids.len() == 0 {
        ids
    } else if ids[0] == id {
        ids.drop_first()
    } else {
        seq![ids[0]] + remove_first_id(ids.drop_first(), id)
    }
}

/// What removing the first occurrence of an identifier does: the length
/// shrinks by one exactly when the identifier was present, every other
/// identifier keeps its membership, distinctness is kept, and under
/// distinctness the identifier is gone.
pub proof fn lemma_remove_first_id(ids: Seq<TaskId>, id: TaskId)
    ensures
        !ids.contains(id) ==> remove_first_id(ids, id) == ids,
        ids.contains(id) ==> remove_first_id(ids, id).len() == ids.len() - 1,
        forall|x: TaskId|
            x != id ==> (remove_first_id(ids, id).contains(x) <==> ids.contains(x)),
        ids.no_duplicates() ==> remove_first_id(ids, id).no_duplicates(),
        ids.no_duplicates() ==> !remove_first_id(ids, id).contains(id),
    decreases ids.len(),
{
    if ids.len() == 0 {
        assert(remove_first_id(ids, id) =~= ids);
    } else if ids[0] == id {
        let rest = ids.drop_first();
        assert(remove_first_id(ids, id) == rest);
        assert(ids.contains(id)) by {
            assert(ids[0] == id);
        }
        assert forall|x: TaskId| x != id implies (rest.contains(x) <==> ids.contains(x)) by {
            if rest.contains(x) {
                let k = choose|k: int| 0 <= k < rest.len() && rest[k] == x;
                assert(ids[k + 1] == x);
            }
            if ids.contains(x) {
                let k = choose|k: int| 0 <= k < ids.len() && ids[k] == x;
                assert(k != 0);
                assert(rest[k - 1] == x);
            }
        }
        if ids.no_duplicates() {
            assert(rest.no_duplicates()) by {
                assert(forall|i: int, j: int|
                    0 <= i < j < rest.len() ==> rest[i] == ids[i + 1] && rest[j] == ids[j + 1]);
            }
            assert(!rest.contains(id)) by {
                if rest.contains(id) {
                    let k = choose|k: int| 0 <= k < rest.len() && rest[k] == id;
                    assert(ids[k + 1] == id && ids[0] == id);
                }
            }
        }
    } else {
        let rest = ids.drop_first();
        lemma_remove_first_id(rest, id);
        let r = remove_first_id(ids, id);
        assert(r == seq![ids[0]] + remove_first_id(rest, id));
        assert(ids.contains(id) <==> rest.contains(id)) by {
            if ids.contains(id) {
                let k = choose|k: int| 0 <= k < ids.len() && ids[k] == id;
                assert(k != 0);
                assert(rest[k - 1] == id);
            }
            if rest.contains(id) {
                let k = choose|k: int| 0 <= k < rest.len() && rest[k] == id;
                assert(ids[k + 1] == id);
            }
        }
        if !ids.contains(id) {
            assert(remove_first_id(rest, id) == rest);
            assert(r =~= ids);
        }
        assert forall|x: TaskId| x != id implies (r.contains(x) <==> ids.contains(x)) by {
            if r.contains(x) {
                let k = choose|k: int| 0 <= k < r.len() && r[k] == x;
                if k == 0 {
                    assert(ids[0] == x);
                } else {
                    assert(remove_first_id(rest, id).contains(x)) by {
                        assert(remove_first_id(rest, id)[k - 1] == x);
                    }
                    assert(rest.contains(x));
                    let m = choose|m: int| 0 <= m < rest.len() && rest[m] == x;
                    assert(ids[m + 1] == x);
                }
            }
            if ids.contains(x) {
                let k = choose|k: int| 0 <= k < ids.len() && ids[k] == x;
                if k == 0 {
                    assert(r[0] == x);
                } else {
                    assert(rest[k - 1] == x);
                    assert(rest.contains(x));
                    assert(remove_first_id(rest, id).contains(x));
                    let m = choose|m: int|
                        0 <= m < remove_first_id(rest, id).len() && remove_first_id(rest, id)[m]
                            == x;
                    assert(r[m + 1] == x);
                }
            }
        }
        if ids.no_duplicates() {
            assert(rest.no_duplicates()) by {
                assert(forall|i: int, j: int|
                    0 <= i < j < rest.len() ==> rest[i] == ids[i + 1] && rest[j] == ids[j + 1]);
            }
            assert(!rest.contains(ids[0])) by {
                if rest.contains(ids[0]) {
                    let k = choose|k: int| 0 <= k < rest.len() && rest[k] == ids[0];
                    assert(ids[k + 1] == ids[0]);
                }
            }
            let rr = remove_first_id(rest, id);
            assert(!rr.contains(ids[0]));
            assert(r.no_duplicates()) by {
                assert forall|i: int, j: int| 0 <= i < j < r.len() implies r[i] != r[j] by {
                    if i == 0 {
                        assert(r[j] == rr[j - 1]);
                        assert(rr.contains(rr[j - 1]));
                    } else {
                        assert(r[i] == rr[i - 1] && r[j] == rr[j - 1]);
                    }
                }
            }
        }
    }
}

/// When the first occurrence of an identifier stands at a known index,
/// removing it by index is removing it.
pub proof fn lemma_remove_first_id_at(ids: Seq<TaskId>, id: TaskId, i: int)
    requires
        0 <= i < ids.len(),
        ids[i] == id,
        forall|k: int| 0 <= k < i ==> ids[k] != id,
    ensures
        remove_first_id(ids, id) == ids.remove(i),
    decreases i,
{
    if i == 0 {
        assert(remove_first_id(ids, id) == ids.drop_first());
        assert(ids.drop_first() =~= ids.remove(0));
    } else {
        let rest = ids.drop_first();
        assert(rest[i - 1] == id);
        assert(forall|k: int| 0 <= k < i - 1 ==> rest[k] == ids[k + 1] && ids[k + 1] != id);
        lemma_remove_first_id_at(rest, id, i - 1);
        assert(remove_first_id(ids, id) == seq![ids[0]] + rest.remove(i - 1));
        assert(seq![ids[0]] + rest.remove(i - 1) =~= ids.remove(i));
    }
}

/// The transitions of the task state machine. Besides the table — admit,
/// pause, completion, failure, internal re-queue, resume to a free or busy
/// slot, retry — a still-queued task may be paused directly, since pausing is
/// allowed while `Waiting`.
pub open spec fn transition_allowed(from: DownloadStatus, to: DownloadStatus) -> bool {
    ||| (from is Waiting && to is Downloading)
    ||| (from is Waiting && to is Paused)
    ||| (from is Downloading && to is Paused)
    ||| (from is Downloading && to is Completed)
    ||| (from is Downloading && to is Failed)
    ||| (from is Downloading && to is Waiting)
    ||| (from is Paused && to is Downloading)
    ||| (from is Paused && to is Waiting)
    ||| (from is Failed && to is Downloading)
    ||| (from is Failed && to is Waiting)
}

/// The task with the given identifier had its status set to `new_status` and
/// its update time refreshed; every other task and every other field is kept,
/// position by position.
pub open spec fn tasks_status_updated(
    pre: Seq<DownloadTask>,
    post: Seq<DownloadTask>,
    id: TaskId,
    new_status: DownloadStatus,
) -> bool {
    &&& post.len() == pre.len()
    &&& forall|k: int|
        0 <= k < pre.len() && (#[trigger] pre[k]).id != id ==> post[k] == pre[k]
    &&& forall|k: int|
        0 <= k < pre.len() && (#[trigger] pre[k]).id == id ==> (#[trigger] post[k]).id == pre[k].id
            && post[k].url == pre[k].url && post[k].target_path == pre[k].target_path
            && post[k].created_at == pre[k].created_at && post[k].status == new_status
}

/// Every task known both before and after an operation either kept its
/// status or moved along an allowed transition of the state machine.
pub open spec fn transitions_respected(pre: Seq<DownloadTask>, post: Seq<DownloadTask>) -> bool {
    forall|i: int, j: int|
        0 <= i < pre.len() && 0 <= j < post.len() && (#[trigger] pre[i]).id == (
        #[trigger] post[j]).id ==> (pre[i].status == post[j].status || transition_allowed(
            pre[i].status,
            post[j].status,
        ))
}

/// Every status-change event in the batch names a task the registry still
/// holds, in exactly the status the event announced.
pub open spec fn events_match_state(events: Seq<DownloadEvent>, tasks: Seq<DownloadTask>) -> bool {
    forall|k: int|
        0 <= k < events.len() ==> match #[trigger] events[k] {
            DownloadEvent::StatusChanged { task_id, new_status, .. } => has_task_id(tasks, task_id)
                && task_by_id(tasks, task_id).status == new_status,
            _ => true,
        }
}

/// Two managers hold the same state.
pub open spec fn same_state(a: TaskQueueManager, b: TaskQueueManager) -> bool {
    &&& a.tasks_seq() == b.tasks_seq()
    &&& a.active_ids() == b.active_ids()
    &&& a.waiting_ids() == b.waiting_ids()
    &&& a.progress_seq() == b.progress_seq()
    &&& a.capacity_spec() == b.capacity_spec()
}

/// Under distinct identifiers, the index of a task's identifier is the
/// task's own position.
pub proof fn lemma_task_index_unique(tasks: Seq<DownloadTask>, i: int)
    requires
        ids_distinct(tasks),
        0 <= i < tasks.len(),
    ensures
        has_task_id(tasks, tasks[i].id),
        task_index(tasks, tasks[i].id) == i,
        task_by_id(tasks, tasks[i].id) == tasks[i],
{
    let id = tasks[i].id;
    assert(has_task_id(tasks, id)) by {
        assert(0 <= i < tasks.len() && tasks[i].id == id);
    }
    let j = task_index(tasks, id);
    assert(0 <= j < tasks.len() && tasks[j].id == id);
    if j != i {
        assert(tasks[i].id != tasks[j].id);
    }
}

/// What a status update does to lookups: identifiers and membership are
/// unchanged, other tasks read as before, and the updated task reads with
/// the new status and its other fields kept.
pub proof fn lemma_status_update_facts(
    pre: Seq<DownloadTask>,
    post: Seq<DownloadTask>,
    id: TaskId,
    s: DownloadStatus,
)
    requires
        ids_distinct(pre),
        has_task_id(pre, id),
        tasks_status_updated(pre, post, id, s),
    ensures
        ids_distinct(post),
        forall|k: int| 0 <= k < pre.len() ==> (#[trigger] post[k]).id == pre[k].id,
        forall|x: TaskId| has_task_id(post, x) <==> has_task_id(pre, x),
        forall|x: TaskId|
            x != id && has_task_id(pre, x) ==> task_by_id(post, x) == task_by_id(pre, x),
        has_task_id(post, id),
        task_by_id(post, id).id == id,
        task_by_id(post, id).status == s,
        task_by_id(post, id).url == task_by_id(pre, id).url,
        task_by_id(post, id).target_path == task_by_id(pre, id).target_path,
        task_by_id(post, id).created_at == task_by_id(pre, id).created_at,
        transitions_respected(pre, post) <==> (task_by_id(pre, id).status == s
            || transition_allowed(task_by_id(pre, id).status, s)),
{
    assert(forall|k: int| 0 <= k < pre.len() ==> (#[trigger] post[k]).id == pre[k].id);
    assert(ids_distinct(post)) by {
        assert(forall|i: int, j: int|
            0 <= i < j < post.len() ==> (#[trigger] post[i]).id == pre[i].id && (
            #[trigger] post[j]).id == pre[j].id);
    }
    assert forall|x: TaskId| has_task_id(post, x) <==> has_task_id(pre, x) by {
        if has_task_id(post, x) {
            let k = choose|k: int| 0 <= k < post.len() && (#[trigger] post[k]).id == x;
            assert(pre[k].id == x);
        }
        if has_task_id(pre, x) {
            let k = choose|k: int| 0 <= k < pre.len() && (#[trigger] pre[k]).id == x;
            assert(post[k].id == x);
        }
    }
    let ti = task_index(pre, id);
    assert(0 <= ti < pre.len() && pre[ti].id == id);
    lemma_task_index_unique(pre, ti);
    lemma_task_index_unique(post, ti);
    assert(task_index(post, id) == ti);
    assert forall|x: TaskId|
        x != id && has_task_id(pre, x) implies task_by_id(post, x) == task_by_id(pre, x) by {
        let k = task_index(pre, x);
        assert(0 <= k < pre.len() && pre[k].id == x);
        lemma_task_index_unique(pre, k);
        lemma_task_index_unique(post, k);
        assert(post[k] == pre[k]);
    }
    if transitions_respected(pre, post) {
        assert(pre[ti].id == post[ti].id);
    }
    if task_by_id(pre, id).status == s || transition_allowed(task_by_id(pre, id).status, s) {
        assert forall|i: int, j: int|
            0 <= i < pre.len() && 0 <= j < post.len() && (#[trigger] pre[i]).id == (
            #[trigger] post[j]).id implies (pre[i].status == post[j].status || transition_allowed(
            pre[i].status,
            post[j].status,
        )) by {
            assert(post[j].id == pre[j].id);
            if i != j {
                assert(pre[i].id != pre[j].id);
            }
            if pre[i].id != id {
                assert(post[i] == pre[i]);
            } else {
                lemma_task_index_unique(pre, i);
            }
        }
    }
}

/// What removing a task does to lookups: the removed identifier is gone,
/// every other identifier keeps its membership and reads as before.
pub proof fn lemma_remove_task_facts(pre: Seq<DownloadTask>, i: int)
    requires
        ids_distinct(pre),
        0 <= i < pre.len(),
    ensures
        ids_distinct(pre.remove(i)),
        !has_task_id(pre.remove(i), pre[i].id),
        forall|x: TaskId|
            x != pre[i].id ==> (has_task_id(pre.remove(i), x) <==> has_task_id(pre, x)),
        forall|x: TaskId|
            x != pre[i].id && has_task_id(pre, x) ==> task_by_id(pre.remove(i), x) == task_by_id(
                pre,
                x,
            ),
{
    let post = pre.remove(i);
    pre.remove_ensures(i);
    assert forall|a: int, b: int|
        0 <= a < b < post.len() implies (#[trigger] post[a]).id != (#[trigger] post[b]).id by {
        let a0 = if a < i {
            a
        } else {
            a + 1
        };
        let b0 = if b < i {
            b
        } else {
            b + 1
        };
        assert(post[a] == pre[a0] && post[b] == pre[b0]);
    }
    assert(!has_task_id(post, pre[i].id)) by {
        if has_task_id(post, pre[i].id) {
            let k = choose|k: int| 0 <= k < post.len() && (#[trigger] post[k]).id == pre[i].id;
            let k0 = if k < i {
                k
            } else {
                k + 1
            };
            assert(post[k] == pre[k0]);
            assert(k0 != i);
        }
    }
    assert forall|x: TaskId|
        x != pre[i].id implies (has_task_id(post, x) <==> has_task_id(pre, x)) by {
        if has_task_id(post, x) {
            let k = choose|k: int| 0 <= k < post.len() && (#[trigger] post[k]).id == x;
            let k0 = if k < i {
                k
            } else {
                k + 1
            };
            assert(pre[k0].id == x);
        }
        if has_task_id(pre, x) {
            let k = choose|k: int| 0 <= k < pre.len() && (#[trigger] pre[k]).id == x;
            assert(k != i);
            if k < i {
                assert(post[k].id == x);
            } else {
                assert(post[k - 1].id == x);
            }
        }
    }
    assert forall|x: TaskId|
        x != pre[i].id && has_task_id(pre, x) implies task_by_id(post, x) == task_by_id(
        pre,
        x,
    ) by {
        let k = task_index(pre, x);
        assert(0 <= k < pre.len() && pre[k].id == x);
        lemma_task_index_unique(pre, k);
        assert(k != i);
        if k < i {
            assert(post[k] == pre[k]);
            lemma_task_index_unique(post, k);
        } else {
            assert(post[k - 1] == pre[k]);
            lemma_task_index_unique(post, k - 1);
        }
    }
}

/// Whether a task answers the request: same stored URL text and target path.
pub open spec fn matches_request(t: DownloadTask, url: Seq<char>, path: Seq<char>) -> bool {
    t.url@ == url && t.target_path@ == path
}

/// Some task answers the request.
pub open spec fn some_match(tasks: Seq<DownloadTask>, url: Seq<char>, path: Seq<char>) -> bool {
    exists|i: int| 0 <= i < tasks.len() && matches_request(#[trigger] tasks[i], url, path)
}

/// Some non-terminal task answers the request.
pub open spec fn some_live_match(
    tasks: Seq<DownloadTask>,
    url: Seq<char>,
    path: Seq<char>,
) -> bool {
    exists|i: int|
        0 <= i < tasks.len() && matches_request(#[trigger] tasks[i], url, path)
            && !tasks[i].status.spec_is_finished()
}

/// Index of the first match of the request.
pub open spec fn is_first_match(
    tasks: Seq<DownloadTask>,
    url: Seq<char>,
    path: Seq<char>,
    i: int,
) -> bool {
    &&& 0 <= i < tasks.len()
    &&& matches_request(tasks[i], url, path)
    &&& forall|k: int| 0 <= k < i ==> !matches_request(#[trigger] tasks[k], url, path)
}

/// Index of the first non-terminal match of the request.
pub open spec fn is_first_live_match(
    tasks: Seq<DownloadTask>,
    url: Seq<char>,
    path: Seq<char>,
    i: int,
) -> bool {
    &&& 0 <= i < tasks.len()
    &&& matches_request(tasks[i], url, path)
    &&& !tasks[i].status.spec_is_finished()
    &&& forall|k: int|
        0 <= k < i ==> !(matches_request(#[trigger] tasks[k], url, path)
            && !tasks[k].status.spec_is_finished())
}

/// Index of the task the duplicate gate consults: the first non-terminal
/// match when one exists (there is at most one non-terminal match per
/// identity), otherwise the first match of any status.
pub open spec fn is_gate_match(
    tasks: Seq<DownloadTask>,
    url: Seq<char>,
    path: Seq<char>,
    i: int,
) -> bool {
    if some_live_match(tasks, url, path) {
        is_first_live_match(tasks, url, path, i)
    } else {
        is_first_match(tasks, url, path, i)
    }
}

/// The identifiers of every task answering the request, in registration order.
pub open spec fn matching_ids(
    tasks: Seq<DownloadTask>,
    url: Seq<char>,
    path: Seq<char>,
) -> Seq<TaskId>
    decreases tasks.len(),
{
    if tasks.len() == 0 {
        Seq::empty()
    } else if matches_request(tasks.last(), url, path) {
        matching_ids(tasks.drop_last(), url, path).push(tasks.last().id)
    } else {
        matching_ids(tasks.drop_last(), url, path)
    }
}

/// No two distinct non-terminal tasks share an identity (stored URL text and
/// target path).
pub open spec fn unique_identities(tasks: Seq<DownloadTask>) -> bool {
    forall|i: int, j: int|
        0 <= i < j < tasks.len() && !(#[trigger] tasks[i]).status.spec_is_finished() && !(
        #[trigger] tasks[j]).status.spec_is_finished() ==> !(tasks[i].url@ == tasks[j].url@
            && tasks[i].target_path@ == tasks[j].target_path@)
}

/// A task was admitted: registered at the end of the registry for the given
/// request, straight into a free slot as `Downloading`, otherwise waiting.
pub open spec fn task_admitted(
    pre: TaskQueueManager,
    post: TaskQueueManager,
    id: TaskId,
    url: Seq<char>,
    path: Seq<char>,
    events: Seq<DownloadEvent>,
) -> bool {
    &&& !has_task_id(pre.tasks_seq(), id)
    &&& post.tasks_seq().len() == pre.tasks_seq().len() + 1
    &&& forall|k: int| 0 <= k < pre.tasks_seq().len() ==> post.tasks_seq()[k] == pre.tasks_seq()[k]
    &&& post.tasks_seq().last().id == id
    &&& post.tasks_seq().last().url@ == url
    &&& post.tasks_seq().last().target_path@ == path
    &&& if pre.active_ids().len() < pre.capacity_spec() {
        &&& post.tasks_seq().last().status is Downloading
        &&& post.active_ids() == pre.active_ids().push(id)
        &&& post.waiting_ids() == pre.waiting_ids()
        &&& events == seq![
            (DownloadEvent::StatusChanged {
                task_id: id,
                old_status: DownloadStatus::Waiting,
                new_status: DownloadStatus::Downloading,
            }),
        ]
    } else {
        &&& post.tasks_seq().last().status is Waiting
        &&& post.waiting_ids() == pre.waiting_ids().push(id)
        &&& post.active_ids() == pre.active_ids()
        &&& events == Seq::<DownloadEvent>::empty()
    }
}

/// A registered task was resumed: into a free slot as `Downloading`,
/// otherwise onto the waiting queue, its other fields and every other task
/// kept.
pub open spec fn task_resumed(
    pre: TaskQueueManager,
    post: TaskQueueManager,
    id: TaskId,
    events: Seq<DownloadEvent>,
) -> bool {
    &&& forall|x: TaskId| has_task_id(post.tasks_seq(), x) <==> has_task_id(pre.tasks_seq(), x)
    &&& forall|x: TaskId|
        x != id && has_task_id(pre.tasks_seq(), x) ==> task_by_id(post.tasks_seq(), x)
            == task_by_id(pre.tasks_seq(), x)
    &&& task_by_id(post.tasks_seq(), id).id == id
    &&& task_by_id(post.tasks_seq(), id).url == task_by_id(pre.tasks_seq(), id).url
    &&& task_by_id(post.tasks_seq(), id).target_path == task_by_id(pre.tasks_seq(), id).target_path
    &&& if pre.active_ids().len() < pre.capacity_spec() {
        &&& task_by_id(post.tasks_seq(), id).status is Downloading
        &&& post.active_ids() == pre.active_ids().push(id)
        &&& post.waiting_ids() == pre.waiting_ids()
        &&& events == seq![
            (DownloadEvent::StatusChanged {
                task_id: id,
                old_status: task_by_id(pre.tasks_seq(), id).status,
                new_status: DownloadStatus::Downloading,
            }),
        ]
    } else {
        &&& task_by_id(post.tasks_seq(), id).status is Waiting
        &&& post.waiting_ids() == pre.waiting_ids().push(id)
        &&& post.active_ids() == pre.active_ids()
        &&& events == seq![
            (DownloadEvent::StatusChanged {
                task_id: id,
                old_status: task_by_id(pre.tasks_seq(), id).status,
                new_status: DownloadStatus::Waiting,
            }),
        ]
    }
}

/// The action the duplicate gate suggests for a duplicate: reuse a completed or running
/// task, resume a paused one, retry a failed one.
pub open spec fn spec_suggested_action(t: DownloadTask) -> DuplicateAction {
    match t.status {
        DownloadStatus::Paused => DuplicateAction::Resume(t.id),
        DownloadStatus::Failed(_) => DuplicateAction::Retry(t.id),
        _ => DuplicateAction::Reuse(t.id),
    }
}

/// What the duplicate gate does for a request whose canonical URL text is
/// `canon`: admit a new task when nothing matches; otherwise, per the policy
/// and the consulted match — reuse it (resuming a paused or failed one),
/// reject the submission, or surface the candidates for a decision.
pub open spec fn gate_behavior(
    pre: TaskQueueManager,
    post: TaskQueueManager,
    canon: Seq<char>,
    path: Seq<char>,
    policy: DuplicatePolicy,
    r: Result<(DuplicateResult, Vec<DownloadEvent>), DownloadError>,
) -> bool {
    &&& ((some_match(pre.tasks_seq(), canon, path) && policy is FailIfDuplicate) <==> (r matches
    Err(e) && e matches DownloadError::PolicyViolation { .. }))
    &&& (r matches Err(e) ==> (e matches DownloadError::PolicyViolation { task_id: d, reason }
        ==> reason@ == "Duplicate found but policy forbids reuse"@ && (forall|i: int|
        is_gate_match(pre.tasks_seq(), canon, path, i) ==> pre.tasks_seq()[i].id == d)))
    &&& (!some_match(pre.tasks_seq(), canon, path) && r is Ok ==> (r matches Ok(p)
        && p.0 matches DuplicateResult::NewTask(id) && task_admitted(
        pre,
        post,
        id,
        canon,
        path,
        p.1@,
    )))
    &&& (forall|i: int|
        is_gate_match(pre.tasks_seq(), canon, path, i) ==> ({
            let t = pre.tasks_seq()[i];
            let ts = TaskStatus::spec_from_download_status(t.status);
            &&& (policy.spec_allows_reuse(&ts) ==> (r matches Ok(p)
                && p.0 matches DuplicateResult::ExistingTask {
                    task_id,
                    status,
                    reason,
                } && task_id == t.id && status == ts && reason is UrlAndPath && (
            if t.status.spec_can_resume() {
                task_resumed(pre, post, t.id, p.1@)
            } else {
                same_state(post, pre) && p.1@.len() == 0
            })))
            &&& (policy is PromptUser ==> (r matches Ok(p)
                && p.0 matches DuplicateResult::RequiresDecision {
                    candidates,
                    suggested_action,
                } && candidates@ == matching_ids(pre.tasks_seq(), canon, path)
                && suggested_action == spec_suggested_action(t) && same_state(post, pre)
                && p.1@.len() == 0))
            &&& (!policy.spec_allows_reuse(&ts) && !(policy is FailIfDuplicate) && !(policy
                is PromptUser) && r is Ok ==> (r matches Ok(p)
                && p.0 matches DuplicateResult::NewTask(id) && task_admitted(
                pre,
                post,
                id,
                canon,
                path,
                p.1@,
            )))
        }))
}

/// Uniqueness of identities is kept by operations that neither add tasks nor
/// change any task's identity, and revive no terminal task.
pub proof fn lemma_unique_identities_preserved(pre: Seq<DownloadTask>, post: Seq<DownloadTask>)
    requires
        ids_distinct(pre),
        ids_distinct(post),
        unique_identities(pre),
        forall|x: TaskId| has_task_id(post, x) ==> has_task_id(pre, x),
        forall|x: TaskId|
            #[trigger] has_task_id(post, x) ==> task_by_id(post, x).id == x && task_by_id(
                pre,
                x,
            ).id == x && task_by_id(post, x).url@ == task_by_id(pre, x).url@ && task_by_id(
                post,
                x,
            ).target_path@ == task_by_id(pre, x).target_path@ && (!task_by_id(
                post,
                x,
            ).status.spec_is_finished() ==> !task_by_id(pre, x).status.spec_is_finished()),
    ensures
        unique_identities(post),
{
    assert forall|i: int, j: int|
        0 <= i < j < post.len() && !(#[trigger] post[i]).status.spec_is_finished() && !(
        #[trigger] post[j]).status.spec_is_finished() implies !(post[i].url@ == post[j].url@
        && post[i].target_path@ == post[j].target_path@) by {
        let x = post[i].id;
        let y = post[j].id;
        lemma_task_index_unique(post, i);
        lemma_task_index_unique(post, j);
        assert(x != y);
        assert(has_task_id(post, x) && has_task_id(post, y));
        assert(task_by_id(post, x) == post[i] && task_by_id(post, y) == post[j]);
        let a = task_index(pre, x);
        let b = task_index(pre, y);
        assert(0 <= a < pre.len() && pre[a].id == x);
        assert(0 <= b < pre.len() && pre[b].id == y);
        lemma_task_index_unique(pre, a);
        lemma_task_index_unique(pre, b);
        assert(a != b);
        if post[i].url@ == post[j].url@ && post[i].target_path@ == post[j].target_path@ {
            assert(!pre[a].status.spec_is_finished() && !pre[b].status.spec_is_finished());
            assert(pre[a].url@ == pre[b].url@ && pre[a].target_path@ == pre[b].target_path@);
            if a < b {
                assert(!(pre[a].url@ == pre[b].url@ && pre[a].target_path@
                    == pre[b].target_path@));
            } else {
                assert(!(pre[b].url@ == pre[a].url@ && pre[b].target_path@
                    == pre[a].target_path@));
            }
        }
    }
}

/// Uniqueness of identities is kept when one task is revived for a request
/// that no non-terminal task answered.
pub proof fn lemma_unique_identities_revive(
    pre: Seq<DownloadTask>,
    post: Seq<DownloadTask>,
    id: TaskId,
    url: Seq<char>,
    path: Seq<char>,
)
    requires
        ids_distinct(pre),
        ids_distinct(post),
        unique_identities(pre),
        forall|x: TaskId| has_task_id(post, x) <==> has_task_id(pre, x),
        forall|x: TaskId|
            x != id && has_task_id(pre, x) ==> task_by_id(post, x) == task_by_id(pre, x),
        has_task_id(pre, id),
        task_by_id(post, id).id == id,
        task_by_id(post, id).url@ == url,
        task_by_id(post, id).target_path@ == path,
        !some_live_match(pre, url, path),
    ensures
        unique_identities(post),
{
    assert forall|i: int, j: int|
        0 <= i < j < post.len() && !(#[trigger] post[i]).status.spec_is_finished() && !(
        #[trigger] post[j]).status.spec_is_finished() implies !(post[i].url@ == post[j].url@
        && post[i].target_path@ == post[j].target_path@) by {
        let x = post[i].id;
        let y = post[j].id;
        lemma_task_index_unique(post, i);
        lemma_task_index_unique(post, j);
        assert(x != y);
        if post[i].url@ == post[j].url@ && post[i].target_path@ == post[j].target_path@ {
            if x != id && y != id {
                assert(has_task_id(pre, x) && has_task_id(pre, y));
                let a = task_index(pre, x);
                let b = task_index(pre, y);
                lemma_task_index_unique(pre, a);
                lemma_task_index_unique(pre, b);
                assert(pre[a] == post[i] && pre[b] == post[j]);
                assert(a != b);
                if a < b {
                    assert(!(pre[a].url@ == pre[b].url@ && pre[a].target_path@
                        == pre[b].target_path@));
                } else {
                    assert(!(pre[b].url@ == pre[a].url@ && pre[b].target_path@
                        == pre[a].target_path@));
                }
            } else {
                let other = if x == id {
                    y
                } else {
                    x
                };
                let oi = if x == id {
                    j
                } else {
                    i
                };
                assert(post[oi].id == other && other != id);
                assert(has_task_id(pre, other));
                let b = task_index(pre, other);
                lemma_task_index_unique(pre, b);
                assert(pre[b] == post[oi]);
                assert(post[oi].url@ == url && post[oi].target_path@ == path) by {
                    let ri = if x == id {
                        i
                    } else {
                        j
                    };
                    assert(post[ri] == task_by_id(post, id)) by {
                        lemma_task_index_unique(post, ri);
                    }
                }
                assert(matches_request(pre[b], url, path));
                assert(!pre[b].status.spec_is_finished());
                assert(some_live_match(pre, url, path));
            }
        }
    }
}

/// Uniqueness of identities is kept when a task is appended for a request
/// that no non-terminal task answers.
pub proof fn lemma_unique_identities_extend(
    pre: Seq<DownloadTask>,
    post: Seq<DownloadTask>,
    url: Seq<char>,
    path: Seq<char>,
)
    requires
        unique_identities(pre),
        post.len() == pre.len() + 1,
        forall|k: int| 0 <= k < pre.len() ==> post[k] == pre[k],
        post.last().url@ == url,
        post.last().target_path@ == path,
        !some_live_match(pre, url, path),
    ensures
        unique_identities(post),
{
    assert forall|i: int, j: int|
        0 <= i < j < post.len() && !(#[trigger] post[i]).status.spec_is_finished() && !(
        #[trigger] post[j]).status.spec_is_finished() implies !(post[i].url@ == post[j].url@
        && post[i].target_path@ == post[j].target_path@) by {
        if j < pre.len() {
            assert(post[i] == pre[i] && post[j] == pre[j]);
        } else {
            assert(post[j] == post.last());
            assert(post[i] == pre[i]);
            if post[i].url@ == post[j].url@ && post[i].target_path@ == post[j].target_path@ {
                assert(matches_request(pre[i], url, path));
                assert(some_live_match(pre, url, path));
            }
        }
    }
}

/// Whether a progress snapshot is stored for the identifier.
pub open spec fn has_progress(entries: Seq<(TaskId, DownloadProgress)>, id: TaskId) -> bool {
    exists|i: int| 0 <= i < entries.len() && (#[trigger] entries[i]).0 == id
}

/// The stored progress snapshot of the identifier.
pub open spec fn progress_of(
    entries: Seq<(TaskId, DownloadProgress)>,
    id: TaskId,
) -> DownloadProgress {
    entries[choose|i: int| 0 <= i < entries.len() && (#[trigger] entries[i]).0 == id].1
}

/// Capacity invariant: a well-formed manager never runs more downloads at
/// once than its capacity. Every operation requires and re-establishes
/// well-formedness, so this holds at every observable moment.
pub proof fn lemma_capacity_invariant(m: TaskQueueManager)
    requires
        m.wf(),
    ensures
        m.active_ids().len() <= m.capacity_spec(),
{
}

/// Monotone admission: at every observable moment — each operation, release
/// steps included, re-establishes well-formedness — either nothing waits or
/// the active set is full.
pub proof fn lemma_admission_saturation(m: TaskQueueManager)
    requires
        m.wf(),
    ensures
        m.waiting_ids().len() > 0 ==> m.active_ids().len() == m.capacity_spec(),
{
}

/// A sequence that contains an identifier has a first occurrence of it.
proof fn lemma_first_occurrence(ids: Seq<TaskId>, id: TaskId)
    requires
        ids.contains(id),
    ensures
        exists|k: int|
            0 <= k < ids.len() && ids[k] == id && (forall|m: int| 0 <= m < k ==> ids[m] != id),
    decreases ids.len(),
{
    if ids[0] == id {
        assert(0 <= 0 < ids.len() && ids[0] == id && (forall|m: int|
            0 <= m < 0 ==> ids[m] != id));
    } else {
        let rest = ids.drop_first();
        assert(rest.contains(id)) by {
            let k = choose|k: int| 0 <= k < ids.len() && ids[k] == id;
            assert(rest[k - 1] == id);
        }
        lemma_first_occurrence(rest, id);
        let k = choose|k: int|
            0 <= k < rest.len() && rest[k] == id && (forall|m: int| 0 <= m < k ==> rest[m] != id);
        assert(ids[k + 1] == id);
        assert(forall|m: int| 0 <= m < k + 1 ==> ids[m] != id) by {
            assert(forall|m: int| 1 <= m < k + 1 ==> ids[m] == rest[m - 1]);
        }
        assert(0 <= k + 1 < ids.len() && ids[k + 1] == id && (forall|m: int|
            0 <= m < k + 1 ==> ids[m] != id));
    }
}

/// FIFO fairness of the waiting queue: a release step promotes exactly the
/// head (see `promote_next` and its callers), submissions and busy resumes
/// push at the tail, and taking one waiter out deletes exactly its own index
/// — the remaining waiters keep their relative order.
pub proof fn lemma_remove_first_id_is_index_removal(ids: Seq<TaskId>, id: TaskId)
    ensures
        ids.contains(id) ==> exists|k: int|
            0 <= k < ids.len() && ids[k] == id && remove_first_id(ids, id) == ids.remove(k),
        !ids.contains(id) ==> remove_first_id(ids, id) == ids,
{
    lemma_remove_first_id(ids, id);
    if ids.contains(id) {
        lemma_first_occurrence(ids, id);
        let k = choose|k: int|
            0 <= k < ids.len() && ids[k] == id && (forall|m: int| 0 <= m < k ==> ids[m] != id);
        lemma_remove_first_id_at(ids, id, k);
        assert(0 <= k < ids.len() && ids[k] == id && remove_first_id(ids, id) == ids.remove(k));
    }
}

/// When some task answers a request, a first match exists.
pub proof fn lemma_first_match_exists(tasks: Seq<DownloadTask>, url: Seq<char>, path: Seq<char>)
    requires
        some_match(tasks, url, path),
    ensures
        exists|m: int| is_first_match(tasks, url, path, m),
    decreases tasks.len(),
{
    if matches_request(tasks[0], url, path) {
        assert(is_first_match(tasks, url, path, 0));
    } else {
        let rest = tasks.drop_first();
        let k = choose|k: int|
            0 <= k < tasks.len() && matches_request(#[trigger] tasks[k], url, path);
        assert(k != 0);
        assert(matches_request(rest[k - 1], url, path));
        assert(some_match(rest, url, path));
        lemma_first_match_exists(rest, url, path);
        let m = choose|m: int| is_first_match(rest, url, path, m);
        assert(is_first_match(tasks, url, path, m + 1)) by {
            assert(tasks[m + 1] == rest[m]);
            assert forall|j: int|
                0 <= j < m + 1 implies !matches_request(#[trigger] tasks[j], url, path) by {
                if j > 0 {
                    assert(tasks[j] == rest[j - 1]);
                }
            }
        }
    }
}

/// When some non-terminal task answers a request, a first non-terminal match
/// exists.
pub proof fn lemma_first_live_match_exists(
    tasks: Seq<DownloadTask>,
    url: Seq<char>,
    path: Seq<char>,
)
    requires
        some_live_match(tasks, url, path),
    ensures
        exists|m: int| is_first_live_match(tasks, url, path, m),
    decreases tasks.len(),
{
    if matches_request(tasks[0], url, path) && !tasks[0].status.spec_is_finished() {
        assert(is_first_live_match(tasks, url, path, 0));
    } else {
        let rest = tasks.drop_first();
        let k = choose|k: int|
            0 <= k < tasks.len() && matches_request(#[trigger] tasks[k], url, path)
                && !tasks[k].status.spec_is_finished();
        assert(k != 0);
        assert(matches_request(rest[k - 1], url, path) && !rest[k
            - 1].status.spec_is_finished());
        assert(some_live_match(rest, url, path));
        lemma_first_live_match_exists(rest, url, path);
        let m = choose|m: int| is_first_live_match(rest, url, path, m);
        assert(is_first_live_match(tasks, url, path, m + 1)) by {
            assert(tasks[m + 1] == rest[m]);
            assert forall|j: int|
                0 <= j < m + 1 implies !(matches_request(#[trigger] tasks[j], url, path)
                && !tasks[j].status.spec_is_finished()) by {
                if j > 0 {
                    assert(tasks[j] == rest[j - 1]);
                }
            }
        }
    }
}

/// When some task answers a request, the duplicate gate's match exists.
pub proof fn lemma_gate_match_exists(tasks: Seq<DownloadTask>, url: Seq<char>, path: Seq<char>)
    requires
        some_match(tasks, url, path),
    ensures
        exists|m: int| is_gate_match(tasks, url, path, m),
{
    if some_live_match(tasks, url, path) {
        lemma_first_live_match_exists(tasks, url, path);
        let m = choose|m: int| is_first_live_match(tasks, url, path, m);
        assert(is_gate_match(tasks, url, path, m));
    } else {
        lemma_first_match_exists(tasks, url, path);
        let m = choose|m: int| is_first_match(tasks, url, path, m);
        assert(is_gate_match(tasks, url, path, m));
    }
}

/// The first task of the list answering the request: same stored URL text
/// and the same target path.
pub fn find_matching_task(tasks: &Vec<DownloadTask>, url: &str, target_path: &str) -> (r: Option<
    TaskId,
>)
    ensures
        match r {
            Some(id) => exists|i: int|
                0 <= i < tasks@.len() && (#[trigger] tasks@[i]).id == id && is_first_match(
                    tasks@,
                    url@,
                    target_path@,
                    i,
                ),
            None => !some_match(tasks@, url@, target_path@),
        },
{
    let mut i: usize = 0;
    while i < tasks.len()
        invariant
            i <= tasks@.len(),
            forall|k: int| 0 <= k < i ==> !matches_request(#[trigger] tasks@[k], url@, target_path@),
        decreases tasks@.len() - i,
    {
        if crate::text::str_eq(tasks[i].url.as_str(), url) && crate::text::str_eq(
            tasks[i].target_path.as_str(),
            target_path,
        ) {
            proof {
                assert(is_first_match(tasks@, url@, target_path@, i as int));
            }
            return Some(tasks[i].id);
        }
        i += 1;
    }
    proof {
        if some_match(tasks@, url@, target_path@) {
            let k = choose|k: int|
                0 <= k < tasks@.len() && matches_request(#[trigger] tasks@[k], url@, target_path@);
            assert(!matches_request(tasks@[k], url@, target_path@));
        }
    }
    None
}

/// The identifiers of every task of the list answering the request, in
/// registration order.
pub fn collect_matching_ids(tasks: &Vec<DownloadTask>, url: &str, target_path: &str) -> (r: Vec<
    TaskId,
>)
    ensures
        r@ == matching_ids(tasks@, url@, target_path@),
{
    let mut out: Vec<TaskId> = Vec::new();
    let mut i: usize = 0;
    proof {
        assert(tasks@.subrange(0, 0) =~= Seq::<DownloadTask>::empty());
    }
    while i < tasks.len()
        invariant
            i <= tasks@.len(),
            out@ == matching_ids(tasks@.subrange(0, i as int), url@, target_path@),
        decreases tasks@.len() - i,
    {
        let hit = crate::text::str_eq(tasks[i].url.as_str(), url) && crate::text::str_eq(
            tasks[i].target_path.as_str(),
            target_path,
        );
        if hit {
            out.push(tasks[i].id);
        }
        proof {
            let cur = tasks@.subrange(0, i + 1);
            assert(cur.drop_last() =~= tasks@.subrange(0, i as int));
            assert(cur.last() == tasks@[i as int]);
        }
        i += 1;
    }
    proof {
        assert(tasks@.subrange(0, tasks@.len() as int) =~= tasks@);
    }
    out
}

/// Manager of download tasks: registry, bounded-concurrency FIFO scheduler,
/// progress store and duplicate gate.
pub struct TaskQueueManager {
    /// Every known task, in registration order, with distinct identifiers.
    tasks: Vec<DownloadTask>,
    /// Identifiers of the tasks now downloading; never more than `capacity`.
    active: Vec<TaskId>,
    /// Identifiers of the tasks waiting to start, in submission order.
    waiting: Vec<TaskId>,
    /// Progress snapshots by task identifier.
    progress_entries: Vec<(TaskId, DownloadProgress)>,
    /// Bound on the active set.
    capacity: usize,
}

impl TaskQueueManager {
    /// The registry: every known task, in registration order.
    pub closed spec fn tasks_seq(&self) -> Seq<DownloadTask> {
        self.tasks@
    }

    /// Identifiers of the tasks now downloading.
    pub closed spec fn active_ids(&self) -> Seq<TaskId> {
        self.active@
    }

    /// Identifiers of the waiting tasks, head first.
    pub closed spec fn waiting_ids(&self) -> Seq<TaskId> {
        self.waiting@
    }

    /// The stored progress snapshots.
    pub closed spec fn progress_seq(&self) -> Seq<(TaskId, DownloadProgress)> {
        self.progress_entries@
    }

    /// The bound on concurrent downloads.
    pub closed spec fn capacity_spec(&self) -> int {
        self.capacity as int
    }

    /// Well-formedness, except for the admission discipline: identifiers are
    /// distinct; the active list holds exactly the `Downloading` tasks, the
    /// waiting queue exactly the `Waiting` tasks; the active set respects the
    /// capacity; progress keys are distinct.
    pub open spec fn wf_core(&self) -> bool {
        &&& ids_distinct(self.tasks_seq())
        &&& self.active_ids().no_duplicates()
        &&& self.waiting_ids().no_duplicates()
        &&& forall|i: int|
            0 <= i < self.active_ids().len() ==> has_task_id(
                self.tasks_seq(),
                #[trigger] self.active_ids()[i],
            ) && task_by_id(self.tasks_seq(), self.active_ids()[i]).status is Downloading
        &&& forall|i: int|
            0 <= i < self.waiting_ids().len() ==> has_task_id(
                self.tasks_seq(),
                #[trigger] self.waiting_ids()[i],
            ) && task_by_id(self.tasks_seq(), self.waiting_ids()[i]).status is Waiting
        &&& forall|i: int|
            0 <= i < self.tasks_seq().len() && (#[trigger] self.tasks_seq()[i]).status
                is Downloading ==> self.active_ids().contains(self.tasks_seq()[i].id)
        &&& forall|i: int|
            0 <= i < self.tasks_seq().len() && (#[trigger] self.tasks_seq()[i]).status
                is Waiting ==> self.waiting_ids().contains(self.tasks_seq()[i].id)
        &&& self.active_ids().len() <= self.capacity_spec()
        &&& forall|i: int, j: int|
            0 <= i < j < self.progress_seq().len() ==> (#[trigger] self.progress_seq()[i]).0 != (
            #[trigger] self.progress_seq()[j]).0
        &&& forall|i: int|
            0 <= i < self.progress_seq().len() ==> ((#[trigger] self.progress_seq()[i]).1.total_bytes
                matches Some(t) ==> self.progress_seq()[i].1.downloaded_bytes <= t)
    }

    /// Well-formedness: `wf_core`, and the admission discipline — while any
    /// task waits, the active set is full.
    pub open spec fn wf(&self) -> bool {
        &&& self.wf_core()
        &&& self.waiting_ids().len() > 0 ==> self.active_ids().len() == self.capacity_spec()
    }

    /// A fresh manager with the default capacity and nothing registered.
    pub fn new() -> (r: Self)
        ensures
            r.wf(),
            r.tasks_seq().len() == 0,
            r.active_ids().len() == 0,
            r.waiting_ids().len() == 0,
            r.progress_seq().len() == 0,
            r.capacity_spec() == MAX_CONCURRENT_DOWNLOADS,
    {
        TaskQueueManager {
            tasks: Vec::new(),
            active: Vec::new(),
            waiting: Vec::new(),
            progress_entries: Vec::new(),
            capacity: MAX_CONCURRENT_DOWNLOADS,
        }
    }

    /// A fresh manager admitting at most `capacity` concurrent downloads.
    pub fn with_capacity(capacity: usize) -> (r: Self)
        ensures
            r.wf(),
            r.tasks_seq().len() == 0,
            r.active_ids().len() == 0,
            r.waiting_ids().len() == 0,
            r.progress_seq().len() == 0,
            r.capacity_spec() == capacity,
    {
        TaskQueueManager {
            tasks: Vec::new(),
            active: Vec::new(),
            waiting: Vec::new(),
            progress_entries: Vec::new(),
            capacity,
        }
    }

    /// The number of active downloads.
    pub fn active_download_count(&self) -> (r: usize)
        ensures
            r == self.active_ids().len(),
    {
        self.active.len()
    }

    /// The first index of the task with the given identifier, if any.
    fn position_of_task(&self, id: TaskId) -> (r: Option<usize>)
        ensures
            match r {
                Some(i) => i < self.tasks@.len() && self.tasks@[i as int].id == id && forall|
                    k: int,
                |
                    0 <= k < i ==> (#[trigger] self.tasks@[k]).id != id,
                None => !has_task_id(self.tasks@, id),
            },
    {
        let mut i: usize = 0;
        while i < self.tasks.len()
            invariant
                i <= self.tasks@.len(),
                forall|k: int| 0 <= k < i ==> (#[trigger] self.tasks@[k]).id != id,
            decreases self.tasks@.len() - i,
        {
            if self.tasks[i].id.0 == id.0 {
                return Some(i);
            }
            i += 1;
        }
        None
    }

    /// The index of the progress entry for the given identifier, if present.
    fn entry_position(v: &Vec<(TaskId, DownloadProgress)>, id: TaskId) -> (r: Option<usize>)
        ensures
            match r {
                Some(i) => i < v@.len() && v@[i as int].0 == id && forall|k: int|
                    0 <= k < i ==> (#[trigger] v@[k]).0 != id,
                None => !has_progress(v@, id),
            },
    {
        let mut i: usize = 0;
        while i < v.len()
            invariant
                i <= v@.len(),
                forall|k: int| 0 <= k < i ==> (#[trigger] v@[k]).0 != id,
            decreases v@.len() - i,
        {
            if v[i].0.0 == id.0 {
                return Some(i);
            }
            i += 1;
        }
        proof {
            if has_progress(v@, id) {
                let k = choose|k: int| 0 <= k < v@.len() && (#[trigger] v@[k]).0 == id;
                assert(v@[k].0 != id);
            }
        }
        None
    }

    /// The index of the given identifier in a list, if present.
    fn id_position(v: &Vec<TaskId>, id: TaskId) -> (r: Option<usize>)
        ensures
            match r {
                Some(i) => i < v@.len() && v@[i as int] == id && forall|k: int|
                    0 <= k < i ==> v@[k] != id,
                None => !v@.contains(id),
            },
    {
        let mut i: usize = 0;
        while i < v.len()
            invariant
                i <= v@.len(),
                forall|k: int| 0 <= k < i ==> v@[k] != id,
            decreases v@.len() - i,
        {
            if v[i].0 == id.0 {
                return Some(i);
            }
            i += 1;
        }
        proof {
            if v@.contains(id) {
                let k = choose|k: int| 0 <= k < v@.len() && v@[k] == id;
                assert(v@[k] != id);
            }
        }
        None
    }

    /// Set the status of the task at a known index, leaving everything else.
    fn set_task_status(&mut self, i: usize, status: DownloadStatus)
        requires
            i < old(self).tasks@.len(),
            ids_distinct(old(self).tasks@),
        ensures
            tasks_status_updated(
                old(self).tasks@,
                final(self).tasks@,
                old(self).tasks@[i as int].id,
                status,
            ),
            final(self).tasks@.len() == old(self).tasks@.len(),
            final(self).tasks@[i as int].status == status,
            final(self).tasks@[i as int].id == old(self).tasks@[i as int].id,
            forall|k: int|
                0 <= k < old(self).tasks@.len() && k != i ==> final(self).tasks@[k] == old(
                    self,
                ).tasks@[k],
            final(self).active@ == old(self).active@,
            final(self).waiting@ == old(self).waiting@,
            final(self).progress_entries@ == old(self).progress_entries@,
            final(self).capacity == old(self).capacity,
    {
        let ghost pre = self.tasks@;
        let mut t = self.tasks.remove(i);
        t.update_status(status);
        self.tasks.insert(i, t);
        proof {
            pre.remove_ensures(i as int);
            pre.remove(i as int).insert_ensures(i as int, self.tasks@[i as int]);
            assert forall|k: int|
                0 <= k < pre.len() && k != i implies self.tasks@[k] == pre[k] by {
                if k < i {
                    assert(self.tasks@[k] == pre.remove(i as int)[k]);
                } else {
                    assert(self.tasks@[k] == pre.remove(i as int)[k - 1]);
                }
            }
            assert forall|k: int|
                0 <= k < pre.len() && (#[trigger] pre[k]).id == pre[i as int].id implies k
                == i by {
                if k < i {
                    assert(pre[k].id != pre[i as int].id);
                } else if k > i {
                    assert(pre[i as int].id != pre[k].id);
                }
            }
        }
    }

    /// Promote the head of the waiting queue into a free slot, if both exist:
    /// exactly one promotion, taking the earliest-queued task, which moves
    /// `Waiting` to `Downloading` and emits that status change.
    fn promote_next(&mut self, events: &mut Vec<DownloadEvent>)
        requires
            old(self).wf_core(),
            old(self).waiting@.len() > 0 ==> old(self).active@.len() + 1 >= old(self).capacity,
        ensures
            final(self).wf(),
            final(self).capacity == old(self).capacity,
            final(self).progress_entries@ == old(self).progress_entries@,
            old(self).waiting@.len() > 0 && old(self).active@.len() < old(self).capacity ==> ({
                let promoted = old(self).waiting@[0];
                &&& final(self).waiting@ == old(self).waiting@.drop_first()
                &&& final(self).active@ == old(self).active@.push(promoted)
                &&& tasks_status_updated(
                    old(self).tasks@,
                    final(self).tasks@,
                    promoted,
                    DownloadStatus::Downloading,
                )
                &&& final(events)@ == old(events)@.push(
                    (DownloadEvent::StatusChanged {
                        task_id: promoted,
                        old_status: DownloadStatus::Waiting,
                        new_status: DownloadStatus::Downloading,
                    }),
                )
            }),
            !(old(self).waiting@.len() > 0 && old(self).active@.len() < old(self).capacity) ==> ({
                &&& final(self).tasks@ == old(self).tasks@
                &&& final(self).active@ == old(self).active@
                &&& final(self).waiting@ == old(self).waiting@
                &&& final(events)@ == old(events)@
            }),
    {
        if self.active.len() >= self.capacity {
            return ;
        }
        if self.waiting.len() == 0 {
            return ;
        }
        let ghost pre = *self;
        let id = self.waiting.remove(0);
        proof {
            assert(self.waiting@ =~= pre.waiting@.drop_first());
            assert(pre.waiting@[0] == id);
        }
        let i = match self.position_of_task(id) {
            Some(i) => i,
            None => {
                proof {
                    assert(has_task_id(pre.tasks@, id));
                }
                vstd::pervasive::unreached()
            },
        };
        proof {
            lemma_task_index_unique(pre.tasks@, i as int);
            assert(pre.tasks@[i as int] == task_by_id(pre.tasks@, id));
            assert(pre.tasks@[i as int].status is Waiting);
        }
        self.set_task_status(i, DownloadStatus::Downloading);
        proof {
            lemma_status_update_facts(
                pre.tasks@,
                self.tasks@,
                id,
                DownloadStatus::Downloading,
            );
        }
        self.active.push(id);
        events.push(
            DownloadEvent::StatusChanged {
                task_id: id,
                old_status: DownloadStatus::Waiting,
                new_status: DownloadStatus::Downloading,
            },
        );
        proof {
            let post = *self;
            // the promoted task was not active: its status was Waiting
            assert(!pre.active@.contains(id)) by {
                if pre.active@.contains(id) {
                    let k = choose|k: int| 0 <= k < pre.active@.len() && pre.active@[k] == id;
                    assert(task_by_id(pre.tasks@, pre.active@[k]).status is Downloading);
                }
            }
            assert(post.active@ == pre.active@.push(id));
            assert(post.active@.no_duplicates()) by {
                assert forall|a: int, b: int|
                    0 <= a < b < post.active@.len() implies post.active@[a] != post.active@[b] by {
                    if b < pre.active@.len() {
                        assert(post.active@[a] == pre.active@[a]);
                        assert(post.active@[b] == pre.active@[b]);
                    } else {
                        assert(post.active@[b] == id);
                        assert(post.active@[a] == pre.active@[a]);
                        assert(pre.active@.contains(pre.active@[a]));
                    }
                }
            }
            assert(post.waiting@.no_duplicates()) by {
                assert(forall|i: int, j: int|
                    0 <= i < j < post.waiting@.len() ==> post.waiting@[i] == pre.waiting@[i + 1]
                        && post.waiting@[j] == pre.waiting@[j + 1]);
            }
            assert forall|k: int|
                0 <= k < post.active@.len() implies has_task_id(
                post.tasks@,
                #[trigger] post.active@[k],
            ) && task_by_id(post.tasks@, post.active@[k]).status is Downloading by {
                let x = post.active@[k];
                if k < pre.active@.len() {
                    assert(pre.active@[k] == x);
                    assert(task_by_id(pre.tasks@, x).status is Downloading);
                    assert(x != id);
                } else {
                    assert(x == id);
                }
            }
            assert forall|k: int|
                0 <= k < post.waiting@.len() implies has_task_id(
                post.tasks@,
                #[trigger] post.waiting@[k],
            ) && task_by_id(post.tasks@, post.waiting@[k]).status is Waiting by {
                let x = post.waiting@[k];
                assert(x == pre.waiting@[k + 1]);
                assert(task_by_id(pre.tasks@, x).status is Waiting);
                assert(x != id) by {
                    assert(pre.waiting@.no_duplicates());
                    assert(pre.waiting@[0] == id);
                }
            }
            assert forall|k: int|
                0 <= k < post.tasks@.len() && (#[trigger] post.tasks@[k]).status
                    is Downloading implies post.active@.contains(post.tasks@[k].id) by {
                if k != i {
                    assert(post.tasks@[k] == pre.tasks@[k]);
                    assert(pre.active@.contains(pre.tasks@[k].id));
                    let m = choose|m: int|
                        0 <= m < pre.active@.len() && pre.active@[m] == pre.tasks@[k].id;
                    assert(post.active@[m] == pre.tasks@[k].id);
                } else {
                    assert(post.active@[post.active@.len() - 1] == id);
                }
            }
            assert forall|k: int|
                0 <= k < post.tasks@.len() && (#[trigger] post.tasks@[k]).status
                    is Waiting implies post.waiting@.contains(post.tasks@[k].id) by {
                assert(k != i);
                assert(post.tasks@[k] == pre.tasks@[k]);
                assert(pre.waiting@.contains(pre.tasks@[k].id));
                let m = choose|m: int|
                    0 <= m < pre.waiting@.len() && pre.waiting@[m] == pre.tasks@[k].id;
                assert(m != 0) by {
                    if m == 0 {
                        lemma_task_index_unique(pre.tasks@, k as int);
                        assert(pre.tasks@[k].id == id);
                        assert(task_by_id(pre.tasks@, id) == pre.tasks@[k]);
                        assert(pre.tasks@[i as int].status is Waiting);
                        assert(k == i);
                    }
                }
                assert(post.waiting@[m - 1] == pre.tasks@[k].id);
            }
            assert(post.progress_seq() == pre.progress_seq());
            assert(post.wf_core());
        }
    }

    /// Register a freshly created task and admit it: straight into a free
    /// slot as `Downloading` with that status change emitted, otherwise onto
    /// the tail of the waiting queue with its `Waiting` status kept. Fails
    /// only when the task's identifier is already registered, leaving the
    /// state untouched.
    pub fn admit_task(&mut self, task: DownloadTask) -> (r: Result<
        Vec<DownloadEvent>,
        DownloadError,
    >)
        requires
            old(self).wf(),
            task.status is Waiting,
        ensures
            final(self).wf(),
            final(self).capacity_spec() == old(self).capacity_spec(),
            final(self).progress_seq() == old(self).progress_seq(),
            transitions_respected(old(self).tasks_seq(), final(self).tasks_seq()),
            !has_task_id(old(self).tasks_seq(), task.id) ==> r is Ok,
            r matches Ok(events) ==> ({
                &&& !has_task_id(old(self).tasks_seq(), task.id)
                &&& final(self).tasks_seq().len() == old(self).tasks_seq().len() + 1
                &&& forall|k: int|
                    0 <= k < old(self).tasks_seq().len() ==> final(self).tasks_seq()[k] == old(
                        self,
                    ).tasks_seq()[k]
                &&& final(self).tasks_seq().last().id == task.id
                &&& final(self).tasks_seq().last().url == task.url
                &&& final(self).tasks_seq().last().target_path == task.target_path
                &&& events_match_state(events@, final(self).tasks_seq())
                &&& if old(self).active_ids().len() < old(self).capacity_spec() {
                    &&& final(self).tasks_seq().last().status is Downloading
                    &&& final(self).active_ids() == old(self).active_ids().push(task.id)
                    &&& final(self).waiting_ids() == old(self).waiting_ids()
                    &&& events@ == seq![
                        (DownloadEvent::StatusChanged {
                            task_id: task.id,
                            old_status: DownloadStatus::Waiting,
                            new_status: DownloadStatus::Downloading,
                        }),
                    ]
                } else {
                    &&& final(self).tasks_seq().last().status is Waiting
                    &&& final(self).waiting_ids() == old(self).waiting_ids().push(task.id)
                    &&& final(self).active_ids() == old(self).active_ids()
                    &&& events@ == Seq::<DownloadEvent>::empty()
                }
            }),
            r is Err ==> same_state(*final(self), *old(self)),
            r matches Err(e) ==> e is General && has_task_id(old(self).tasks_seq(), task.id),
    {
        let id = task.id;
        match self.position_of_task(id) {
            Some(_) => {
                return Err(
                    DownloadError::General("task identifier already registered".to_owned()),
                );
            },
            None => {},
        }
        let ghost pre = *self;
        proof {
            assert(pre.tasks@.push(task).last() == task);
            assert(ids_distinct(pre.tasks@.push(task))) by {
                assert forall|a: int, b: int|
                    0 <= a < b < pre.tasks@.push(task).len() implies (#[trigger] pre.tasks@.push(
                    task,
                )[a]).id != (#[trigger] pre.tasks@.push(task)[b]).id by {
                    if b < pre.tasks@.len() {
                        assert(pre.tasks@.push(task)[a] == pre.tasks@[a]);
                        assert(pre.tasks@.push(task)[b] == pre.tasks@[b]);
                    } else {
                        assert(pre.tasks@.push(task)[b] == task);
                        assert(pre.tasks@.push(task)[a] == pre.tasks@[a]);
                        assert(!has_task_id(pre.tasks@, id));
                    }
                }
            }
        }
        if self.active.len() < self.capacity {
            self.tasks.push(task);
            let idx = self.tasks.len() - 1;
            let ghost mid = *self;
            self.set_task_status(idx, DownloadStatus::Downloading);
            proof {
                lemma_task_index_unique(mid.tasks@, idx as int);
                lemma_status_update_facts(
                    mid.tasks@,
                    self.tasks@,
                    id,
                    DownloadStatus::Downloading,
                );
            }
            self.active.push(id);
            let mut events: Vec<DownloadEvent> = Vec::new();
            events.push(
                DownloadEvent::StatusChanged {
                    task_id: id,
                    old_status: DownloadStatus::Waiting,
                    new_status: DownloadStatus::Downloading,
                },
            );
            proof {
                let post = *self;
                assert(post.tasks@.len() == pre.tasks@.len() + 1);
                assert forall|k: int|
                    0 <= k < pre.tasks@.len() implies post.tasks@[k] == pre.tasks@[k] by {
                    assert(mid.tasks@[k] == pre.tasks@[k]);
                    assert(mid.tasks@[k].id != id);
                }
                assert(post.tasks@.last().id == id);
                assert(!pre.active@.contains(id)) by {
                    if pre.active@.contains(id) {
                        let k = choose|k: int|
                            0 <= k < pre.active@.len() && pre.active@[k] == id;
                        assert(has_task_id(pre.tasks@, pre.active@[k]));
                    }
                }
                assert(post.active@ == pre.active@.push(id));
                assert(post.active@.no_duplicates()) by {
                    assert forall|a: int, b: int|
                        0 <= a < b < post.active@.len() implies post.active@[a]
                            != post.active@[b] by {
                        if b < pre.active@.len() {
                            assert(post.active@[a] == pre.active@[a]);
                            assert(post.active@[b] == pre.active@[b]);
                        } else {
                            assert(post.active@[b] == id);
                            assert(post.active@[a] == pre.active@[a]);
                            assert(pre.active@.contains(pre.active@[a]));
                        }
                    }
                }
                assert(ids_distinct(post.tasks@)) by {
                    lemma_status_update_facts(
                        mid.tasks@,
                        post.tasks@,
                        id,
                        DownloadStatus::Downloading,
                    );
                }
                assert forall|k: int|
                    0 <= k < post.active@.len() implies has_task_id(
                    post.tasks@,
                    #[trigger] post.active@[k],
                ) && task_by_id(post.tasks@, post.active@[k]).status is Downloading by {
                    let x = post.active@[k];
                    if k < pre.active@.len() {
                        assert(pre.active@[k] == x);
                        assert(task_by_id(pre.tasks@, x).status is Downloading);
                        let m = task_index(pre.tasks@, x);
                        assert(0 <= m < pre.tasks@.len() && pre.tasks@[m].id == x);
                        assert(post.tasks@[m] == pre.tasks@[m]);
                        lemma_task_index_unique(post.tasks@, m);
                    } else {
                        assert(x == id);
                        lemma_task_index_unique(post.tasks@, post.tasks@.len() - 1);
                        assert(task_by_id(post.tasks@, id) == post.tasks@.last());
                        assert(post.tasks@.last().status is Downloading);
                    }
                }
                assert forall|k: int|
                    0 <= k < post.waiting@.len() implies has_task_id(
                    post.tasks@,
                    #[trigger] post.waiting@[k],
                ) && task_by_id(post.tasks@, post.waiting@[k]).status is Waiting by {
                    let x = post.waiting@[k];
                    assert(pre.waiting@[k] == x);
                    assert(task_by_id(pre.tasks@, x).status is Waiting);
                    let m = task_index(pre.tasks@, x);
                    assert(0 <= m < pre.tasks@.len() && pre.tasks@[m].id == x);
                    assert(post.tasks@[m] == pre.tasks@[m]);
                    lemma_task_index_unique(post.tasks@, m);
                }
                assert forall|k: int|
                    0 <= k < post.tasks@.len() && (#[trigger] post.tasks@[k]).status
                        is Downloading implies post.active@.contains(post.tasks@[k].id) by {
                    if k < pre.tasks@.len() {
                        assert(post.tasks@[k] == pre.tasks@[k]);
                        assert(pre.active@.contains(pre.tasks@[k].id));
                        let m = choose|m: int|
                            0 <= m < pre.active@.len() && pre.active@[m] == pre.tasks@[k].id;
                        assert(post.active@[m] == pre.tasks@[k].id);
                    } else {
                        assert(post.active@[post.active@.len() - 1] == id);
                    }
                }
                assert forall|k: int|
                    0 <= k < post.tasks@.len() && (#[trigger] post.tasks@[k]).status
                        is Waiting implies post.waiting@.contains(post.tasks@[k].id) by {
                    assert(k < pre.tasks@.len());
                    assert(post.tasks@[k] == pre.tasks@[k]);
                }
                assert(post.progress_seq() == pre.progress_seq());
                assert(post.wf_core());
                assert(post.wf());
                assert(transitions_respected(pre.tasks@, post.tasks@)) by {
                    assert forall|a: int, b: int|
                        0 <= a < pre.tasks@.len() && 0 <= b < post.tasks@.len() && (
                        #[trigger] pre.tasks@[a]).id == (#[trigger] post.tasks@[b]).id implies (
                    pre.tasks@[a].status == post.tasks@[b].status || transition_allowed(
                        pre.tasks@[a].status,
                        post.tasks@[b].status,
                    )) by {
                        assert(pre.tasks@[a].id != id);
                        assert(b < pre.tasks@.len());
                        assert(post.tasks@[b] == pre.tasks@[b]);
                        if a != b {
                            assert(pre.tasks@[a].id != pre.tasks@[b].id);
                        }
                    }
                }
                lemma_task_index_unique(post.tasks@, post.tasks@.len() - 1);
            }
            Ok(events)
        } else {
            self.tasks.push(task);
            self.waiting.push(id);
            proof {
                let post = *self;
                assert(post.tasks@.last() == task);
                assert(!pre.waiting@.contains(id)) by {
                    if pre.waiting@.contains(id) {
                        let k = choose|k: int|
                            0 <= k < pre.waiting@.len() && pre.waiting@[k] == id;
                        assert(has_task_id(pre.tasks@, pre.waiting@[k]));
                    }
                }
                assert(post.waiting@ == pre.waiting@.push(id));
                assert(post.waiting@.no_duplicates()) by {
                    assert forall|a: int, b: int|
                        0 <= a < b < post.waiting@.len() implies post.waiting@[a]
                            != post.waiting@[b] by {
                        if b < pre.waiting@.len() {
                            assert(post.waiting@[a] == pre.waiting@[a]);
                            assert(post.waiting@[b] == pre.waiting@[b]);
                        } else {
                            assert(post.waiting@[b] == id);
                            assert(post.waiting@[a] == pre.waiting@[a]);
                            assert(pre.waiting@.contains(pre.waiting@[a]));
                        }
                    }
                }
                assert forall|k: int|
                    0 <= k < post.active@.len() implies has_task_id(
                    post.tasks@,
                    #[trigger] post.active@[k],
                ) && task_by_id(post.tasks@, post.active@[k]).status is Downloading by {
                    let x = post.active@[k];
                    assert(pre.active@[k] == x);
                    assert(task_by_id(pre.tasks@, x).status is Downloading);
                    let m = task_index(pre.tasks@, x);
                    assert(0 <= m < pre.tasks@.len() && pre.tasks@[m].id == x);
                    assert(post.tasks@[m] == pre.tasks@[m]);
                    lemma_task_index_unique(post.tasks@, m);
                }
                assert forall|k: int|
                    0 <= k < post.waiting@.len() implies has_task_id(
                    post.tasks@,
                    #[trigger] post.waiting@[k],
                ) && task_by_id(post.tasks@, post.waiting@[k]).status is Waiting by {
                    let x = post.waiting@[k];
                    if k < pre.waiting@.len() {
                        assert(pre.waiting@[k] == x);
                        assert(task_by_id(pre.tasks@, x).status is Waiting);
                        let m = task_index(pre.tasks@, x);
                        assert(0 <= m < pre.tasks@.len() && pre.tasks@[m].id == x);
                        assert(post.tasks@[m] == pre.tasks@[m]);
                        lemma_task_index_unique(post.tasks@, m);
                    } else {
                        assert(x == id);
                        lemma_task_index_unique(post.tasks@, post.tasks@.len() - 1);
                        assert(task_by_id(post.tasks@, id) == task);
                    }
                }
                assert forall|k: int|
                    0 <= k < post.tasks@.len() && (#[trigger] post.tasks@[k]).status
                        is Downloading implies post.active@.contains(post.tasks@[k].id) by {
                    assert(k < pre.tasks@.len());
                    assert(post.tasks@[k] == pre.tasks@[k]);
                }
                assert forall|k: int|
                    0 <= k < post.tasks@.len() && (#[trigger] post.tasks@[k]).status
                        is Waiting implies post.waiting@.contains(post.tasks@[k].id) by {
                    if k < pre.tasks@.len() {
                        assert(post.tasks@[k] == pre.tasks@[k]);
                        assert(pre.waiting@.contains(pre.tasks@[k].id));
                        let m = choose|m: int|
                            0 <= m < pre.waiting@.len() && pre.waiting@[m] == pre.tasks@[k].id;
                        assert(post.waiting@[m] == pre.tasks@[k].id);
                    } else {
                        assert(post.waiting@[post.waiting@.len() - 1] == id);
                    }
                }
                assert(post.progress_seq() == pre.progress_seq());
                assert(post.wf_core());
                assert(post.wf());
                assert(transitions_respected(pre.tasks@, post.tasks@)) by {
                    assert forall|a: int, b: int|
                        0 <= a < pre.tasks@.len() && 0 <= b < post.tasks@.len() && (
                        #[trigger] pre.tasks@[a]).id == (#[trigger] post.tasks@[b]).id implies (
                    pre.tasks@[a].status == post.tasks@[b].status || transition_allowed(
                        pre.tasks@[a].status,
                        post.tasks@[b].status,
                    )) by {
                        assert(pre.tasks@[a].id != id);
                        assert(b < pre.tasks@.len());
                        assert(post.tasks@[b] == pre.tasks@[b]);
                    }
                }
            }
            Ok(Vec::new())
        }
    }

    /// Create a task for the request and admit it per the submit algorithm:
    /// into a free slot as `Downloading`, otherwise onto the waiting queue.
    /// Returns the new task's identifier and the emitted events. Fails only
    /// if the freshly drawn identifier collides with a registered one.
    pub fn add_task(&mut self, url: String, target_path: String) -> (r: Result<
        (TaskId, Vec<DownloadEvent>),
        DownloadError,
    >)
        requires
            old(self).wf(),
        ensures
            final(self).wf(),
            final(self).capacity_spec() == old(self).capacity_spec(),
            final(self).progress_seq() == old(self).progress_seq(),
            transitions_respected(old(self).tasks_seq(), final(self).tasks_seq()),
            r matches Ok((id, events)) ==> ({
                &&& !has_task_id(old(self).tasks_seq(), id)
                &&& final(self).tasks_seq().len() == old(self).tasks_seq().len() + 1
                &&& forall|k: int|
                    0 <= k < old(self).tasks_seq().len() ==> final(self).tasks_seq()[k] == old(
                        self,
                    ).tasks_seq()[k]
                &&& final(self).tasks_seq().last().id == id
                &&& final(self).tasks_seq().last().url == url
                &&& final(self).tasks_seq().last().target_path == target_path
                &&& events_match_state(events@, final(self).tasks_seq())
                &&& if old(self).active_ids().len() < old(self).capacity_spec() {
                    &&& final(self).tasks_seq().last().status is Downloading
                    &&& final(self).active_ids() == old(self).active_ids().push(id)
                    &&& final(self).waiting_ids() == old(self).waiting_ids()
                    &&& events@ == seq![
                        (DownloadEvent::StatusChanged {
                            task_id: id,
                            old_status: DownloadStatus::Waiting,
                            new_status: DownloadStatus::Downloading,
                        }),
                    ]
                } else {
                    &&& final(self).tasks_seq().last().status is Waiting
                    &&& final(self).waiting_ids() == old(self).waiting_ids().push(id)
                    &&& final(self).active_ids() == old(self).active_ids()
                    &&& events@ == Seq::<DownloadEvent>::empty()
                }
            }),
            r is Err ==> same_state(*final(self), *old(self)),
            r matches Err(e) ==> e is General,
    {
        let task = DownloadTask::new(url, target_path);
        let id = task.id;
        match self.admit_task(task) {
            Ok(events) => Ok((id, events)),
            Err(e) => Err(e),
        }
    }

    /// Pause a task: a downloading task leaves the active set and frees its
    /// slot, which promotes the head of the waiting queue; a waiting task
    /// leaves the queue. The paused task's status change is emitted after any
    /// promotion, as the last event. Fails with `TaskNotFound` for an unknown
    /// identifier and `InvalidStatusTransition` when the task cannot pause.
    pub fn pause_task(&mut self, task_id: TaskId) -> (r: Result<Vec<DownloadEvent>, DownloadError>)
        requires
            old(self).wf(),
        ensures
            final(self).wf(),
            final(self).capacity_spec() == old(self).capacity_spec(),
            final(self).progress_seq() == old(self).progress_seq(),
            transitions_respected(old(self).tasks_seq(), final(self).tasks_seq()),
            !has_task_id(old(self).tasks_seq(), task_id) <==> (r matches Err(e) && e matches
                DownloadError::TaskNotFound(i) && i == task_id),
            has_task_id(old(self).tasks_seq(), task_id) && !task_by_id(
                old(self).tasks_seq(),
                task_id,
            ).status.spec_can_pause() <==> (r matches Err(e) && e is InvalidStatusTransition),
            r is Err ==> same_state(*final(self), *old(self)),
            r is Ok <==> has_task_id(old(self).tasks_seq(), task_id) && task_by_id(
                old(self).tasks_seq(),
                task_id,
            ).status.spec_can_pause(),
            r matches Ok(events) ==> ({
                let t0 = task_by_id(old(self).tasks_seq(), task_id);
                &&& forall|x: TaskId|
                    has_task_id(final(self).tasks_seq(), x) <==> has_task_id(
                        old(self).tasks_seq(),
                        x,
                    )
                &&& task_by_id(final(self).tasks_seq(), task_id).status is Paused
                &&& events_match_state(events@, final(self).tasks_seq())
                &&& if t0.status is Downloading {
                    if old(self).waiting_ids().len() > 0 {
                        let promoted = old(self).waiting_ids()[0];
                        &&& final(self).active_ids() == remove_first_id(
                            old(self).active_ids(),
                            task_id,
                        ).push(promoted)
                        &&& final(self).waiting_ids() == old(self).waiting_ids().drop_first()
                        &&& task_by_id(final(self).tasks_seq(), promoted).status is Downloading
                        &&& forall|x: TaskId|
                            x != task_id && x != promoted && has_task_id(old(self).tasks_seq(), x)
                                ==> task_by_id(final(self).tasks_seq(), x) == task_by_id(
                                old(self).tasks_seq(),
                                x,
                            )
                        &&& events@ == seq![
                            (DownloadEvent::StatusChanged {
                                task_id: promoted,
                                old_status: DownloadStatus::Waiting,
                                new_status: DownloadStatus::Downloading,
                            }),
                            (DownloadEvent::StatusChanged {
                                task_id,
                                old_status: t0.status,
                                new_status: DownloadStatus::Paused,
                            }),
                        ]
                    } else {
                        &&& final(self).active_ids() == remove_first_id(
                            old(self).active_ids(),
                            task_id,
                        )
                        &&& final(self).waiting_ids() == old(self).waiting_ids()
                        &&& forall|x: TaskId|
                            x != task_id && has_task_id(old(self).tasks_seq(), x) ==> task_by_id(
                                final(self).tasks_seq(),
                                x,
                            ) == task_by_id(old(self).tasks_seq(), x)
                        &&& events@ == seq![
                            (DownloadEvent::StatusChanged {
                                task_id,
                                old_status: t0.status,
                                new_status: DownloadStatus::Paused,
                            }),
                        ]
                    }
                } else {
                    &&& final(self).active_ids() == old(self).active_ids()
                    &&& final(self).waiting_ids() == remove_first_id(
                        old(self).waiting_ids(),
                        task_id,
                    )
                    &&& forall|x: TaskId|
                        x != task_id && has_task_id(old(self).tasks_seq(), x) ==> task_by_id(
                            final(self).tasks_seq(),
                            x,
                        ) == task_by_id(old(self).tasks_seq(), x)
                    &&& events@ == seq![
                        (DownloadEvent::StatusChanged {
                            task_id,
                            old_status: t0.status,
                            new_status: DownloadStatus::Paused,
                        }),
                    ]
                }
            }),
    {
        let i = match self.position_of_task(task_id) {
            Some(i) => i,
            None => {
                return Err(DownloadError::TaskNotFound(task_id));
            },
        };
        proof {
            lemma_task_index_unique(old(self).tasks@, i as int);
        }
        if !self.tasks[i].status.can_pause() {
            return Err(DownloadError::InvalidStatusTransition);
        }
        let ghost pre = *self;
        let old_status = self.tasks[i].status.clone();
        let was_downloading = self.tasks[i].status.is_active();
        self.set_task_status(i, DownloadStatus::Paused);
        proof {
            lemma_status_update_facts(pre.tasks@, self.tasks@, task_id, DownloadStatus::Paused);
        }
        if was_downloading {
            Self::remove_id(&mut self.active, task_id);
        } else {
            Self::remove_id(&mut self.waiting, task_id);
        }
        let ghost mid = *self;
        proof {
            lemma_remove_first_id(pre.active@, task_id);
            lemma_remove_first_id(pre.waiting@, task_id);
            assert(ids_distinct(mid.tasks@));
            assert(task_by_id(mid.tasks@, task_id).status is Paused);
            if was_downloading {
                assert(pre.active@.contains(task_id)) by {
                    assert(pre.tasks@[i as int].status is Downloading);
                }
            } else {
                assert(pre.waiting@.contains(task_id)) by {
                    assert(pre.tasks@[i as int].status is Waiting);
                }
            }
            assert forall|k: int|
                0 <= k < mid.active@.len() implies has_task_id(
                mid.tasks@,
                #[trigger] mid.active@[k],
            ) && task_by_id(mid.tasks@, mid.active@[k]).status is Downloading by {
                let x = mid.active@[k];
                assert(mid.active@.contains(x));
                assert(x != task_id);
                assert(pre.active@.contains(x));
                assert(task_by_id(pre.tasks@, x).status is Downloading);
            }
            assert forall|k: int|
                0 <= k < mid.waiting@.len() implies has_task_id(
                mid.tasks@,
                #[trigger] mid.waiting@[k],
            ) && task_by_id(mid.tasks@, mid.waiting@[k]).status is Waiting by {
                let x = mid.waiting@[k];
                assert(mid.waiting@.contains(x));
                assert(x != task_id);
                assert(pre.waiting@.contains(x));
                assert(task_by_id(pre.tasks@, x).status is Waiting);
            }
            assert forall|k: int|
                0 <= k < mid.tasks@.len() && (#[trigger] mid.tasks@[k]).status
                    is Downloading implies mid.active@.contains(mid.tasks@[k].id) by {
                assert(k != i);
                assert(mid.tasks@[k] == pre.tasks@[k]);
                assert(pre.active@.contains(pre.tasks@[k].id));
                assert(pre.tasks@[k].id != task_id) by {
                    lemma_task_index_unique(pre.tasks@, k);
                }
            }
            assert forall|k: int|
                0 <= k < mid.tasks@.len() && (#[trigger] mid.tasks@[k]).status
                    is Waiting implies mid.waiting@.contains(mid.tasks@[k].id) by {
                assert(k != i);
                assert(mid.tasks@[k] == pre.tasks@[k]);
                assert(pre.waiting@.contains(pre.tasks@[k].id));
                assert(pre.tasks@[k].id != task_id) by {
                    lemma_task_index_unique(pre.tasks@, k);
                }
            }
            assert(mid.progress_seq() == pre.progress_seq());
            assert(mid.wf_core());
            assert(mid.waiting@.len() > 0 ==> mid.active@.len() + 1 >= mid.capacity) by {
                if mid.waiting@.len() > 0 {
                    if was_downloading {
                        assert(pre.waiting@.len() > 0);
                    }
                }
            }
        }
        let mut events: Vec<DownloadEvent> = Vec::new();
        self.promote_next(&mut events);
        proof {
            let post = *self;
            if mid.waiting@.len() > 0 && mid.active@.len() < mid.capacity {
                let promoted = mid.waiting@[0];
                assert(promoted != task_id) by {
                    assert(task_by_id(mid.tasks@, promoted).status is Waiting);
                }
                lemma_status_update_facts(
                    mid.tasks@,
                    post.tasks@,
                    promoted,
                    DownloadStatus::Downloading,
                );
                assert(task_by_id(post.tasks@, task_id).status is Paused);
            }
        }
        events.push(
            DownloadEvent::StatusChanged {
                task_id,
                old_status,
                new_status: DownloadStatus::Paused,
            },
        );
        proof {
            let post = *self;
            assert(transitions_respected(pre.tasks@, post.tasks@)) by {
                assert forall|a: int, b: int|
                    0 <= a < pre.tasks@.len() && 0 <= b < post.tasks@.len() && (
                    #[trigger] pre.tasks@[a]).id == (#[trigger] post.tasks@[b]).id implies (
                pre.tasks@[a].status == post.tasks@[b].status || transition_allowed(
                    pre.tasks@[a].status,
                    post.tasks@[b].status,
                )) by {
                    assert(post.tasks@.len() == pre.tasks@.len());
                    assert(post.tasks@[b].id == pre.tasks@[b].id);
                    if a != b {
                        assert(pre.tasks@[a].id != pre.tasks@[b].id);
                    }
                    lemma_task_index_unique(pre.tasks@, a);
                    lemma_task_index_unique(post.tasks@, a);
                    let x = pre.tasks@[a].id;
                    assert(pre.tasks@[a] == task_by_id(pre.tasks@, x));
                    assert(post.tasks@[a] == task_by_id(post.tasks@, x));
                    if x == task_id {
                        assert(task_by_id(post.tasks@, x).status is Paused);
                    } else if mid.waiting@.len() > 0 && mid.active@.len() < mid.capacity
                        && x == mid.waiting@[0] {
                        assert(task_by_id(mid.tasks@, x).status is Waiting);
                        assert(task_by_id(pre.tasks@, x) == task_by_id(mid.tasks@, x));
                        assert(task_by_id(post.tasks@, x).status is Downloading);
                    } else {
                        assert(task_by_id(post.tasks@, x) == task_by_id(mid.tasks@, x));
                        assert(task_by_id(mid.tasks@, x) == task_by_id(pre.tasks@, x));
                    }
                }
            }
            assert forall|x: TaskId|
                x != task_id && has_task_id(pre.tasks@, x) && !(mid.waiting@.len() > 0
                    && mid.active@.len() < mid.capacity && x == mid.waiting@[0]) implies
                task_by_id(post.tasks@, x) == task_by_id(pre.tasks@, x) by {
                assert(task_by_id(mid.tasks@, x) == task_by_id(pre.tasks@, x));
                if mid.waiting@.len() > 0 && mid.active@.len() < mid.capacity {
                    assert(task_by_id(post.tasks@, x) == task_by_id(mid.tasks@, x)) by {
                        lemma_status_update_facts(
                            mid.tasks@,
                            post.tasks@,
                            mid.waiting@[0],
                            DownloadStatus::Downloading,
                        );
                    }
                } else {
                    assert(post.tasks@ == mid.tasks@);
                }
            }
        }
        Ok(events)
    }

    /// Resume a paused or failed task: into a free slot as `Downloading`,
    /// otherwise onto the tail of the waiting queue as `Waiting`. Fails with
    /// `TaskNotFound` for an unknown identifier and `InvalidStatusTransition`
    /// when the task cannot resume.
    pub fn resume_task(&mut self, task_id: TaskId) -> (r: Result<
        Vec<DownloadEvent>,
        DownloadError,
    >)
        requires
            old(self).wf(),
        ensures
            final(self).wf(),
            final(self).capacity_spec() == old(self).capacity_spec(),
            final(self).progress_seq() == old(self).progress_seq(),
            transitions_respected(old(self).tasks_seq(), final(self).tasks_seq()),
            !has_task_id(old(self).tasks_seq(), task_id) <==> (r matches Err(e) && e matches
                DownloadError::TaskNotFound(i) && i == task_id),
            has_task_id(old(self).tasks_seq(), task_id) && !task_by_id(
                old(self).tasks_seq(),
                task_id,
            ).status.spec_can_resume() <==> (r matches Err(e) && e is InvalidStatusTransition),
            r is Err ==> same_state(*final(self), *old(self)),
            r is Ok <==> has_task_id(old(self).tasks_seq(), task_id) && task_by_id(
                old(self).tasks_seq(),
                task_id,
            ).status.spec_can_resume(),
            r matches Ok(events) ==> ({
                let t0 = task_by_id(old(self).tasks_seq(), task_id);
                &&& forall|x: TaskId|
                    has_task_id(final(self).tasks_seq(), x) <==> has_task_id(
                        old(self).tasks_seq(),
                        x,
                    )
                &&& forall|x: TaskId|
                    x != task_id && has_task_id(old(self).tasks_seq(), x) ==> task_by_id(
                        final(self).tasks_seq(),
                        x,
                    ) == task_by_id(old(self).tasks_seq(), x)
                &&& task_by_id(final(self).tasks_seq(), task_id).id == task_id
                &&& task_by_id(final(self).tasks_seq(), task_id).url == task_by_id(
                    old(self).tasks_seq(),
                    task_id,
                ).url
                &&& task_by_id(final(self).tasks_seq(), task_id).target_path == task_by_id(
                    old(self).tasks_seq(),
                    task_id,
                ).target_path
                &&& task_by_id(final(self).tasks_seq(), task_id).created_at == task_by_id(
                    old(self).tasks_seq(),
                    task_id,
                ).created_at
                &&& events_match_state(events@, final(self).tasks_seq())
                &&& if old(self).active_ids().len() < old(self).capacity_spec() {
                    &&& task_by_id(final(self).tasks_seq(), task_id).status is Downloading
                    &&& final(self).active_ids() == old(self).active_ids().push(task_id)
                    &&& final(self).waiting_ids() == old(self).waiting_ids()
                    &&& events@ == seq![
                        (DownloadEvent::StatusChanged {
                            task_id,
                            old_status: t0.status,
                            new_status: DownloadStatus::Downloading,
                        }),
                    ]
                } else {
                    &&& task_by_id(final(self).tasks_seq(), task_id).status is Waiting
                    &&& final(self).waiting_ids() == old(self).waiting_ids().push(task_id)
                    &&& final(self).active_ids() == old(self).active_ids()
                    &&& events@ == seq![
                        (DownloadEvent::StatusChanged {
                            task_id,
                            old_status: t0.status,
                            new_status: DownloadStatus::Waiting,
                        }),
                    ]
                }
            }),
    {
        let i = match self.position_of_task(task_id) {
            Some(i) => i,
            None => {
                return Err(DownloadError::TaskNotFound(task_id));
            },
        };
        proof {
            lemma_task_index_unique(old(self).tasks@, i as int);
        }
        if !self.tasks[i].status.can_resume() {
            return Err(DownloadError::InvalidStatusTransition);
        }
        let ghost pre = *self;
        let old_status = self.tasks[i].status.clone();
        proof {
            assert(!pre.active@.contains(task_id)) by {
                if pre.active@.contains(task_id) {
                    assert(task_by_id(pre.tasks@, task_id).status is Downloading);
                }
            }
            assert(!pre.waiting@.contains(task_id)) by {
                if pre.waiting@.contains(task_id) {
                    assert(task_by_id(pre.tasks@, task_id).status is Waiting);
                }
            }
        }
        let slot_free = self.active.len() < self.capacity;
        let new_status = if slot_free {
            DownloadStatus::Downloading
        } else {
            DownloadStatus::Waiting
        };
        self.set_task_status(i, new_status);
        proof {
            lemma_status_update_facts(
                pre.tasks@,
                self.tasks@,
                task_id,
                if slot_free {
                    DownloadStatus::Downloading
                } else {
                    DownloadStatus::Waiting
                },
            );
        }
        if slot_free {
            self.active.push(task_id);
        } else {
            self.waiting.push(task_id);
        }
        let mut events: Vec<DownloadEvent> = Vec::new();
        events.push(
            DownloadEvent::StatusChanged {
                task_id,
                old_status,
                new_status: if slot_free {
                    DownloadStatus::Downloading
                } else {
                    DownloadStatus::Waiting
                },
            },
        );
        proof {
            let post = *self;
            if slot_free {
                assert(post.active@ == pre.active@.push(task_id));
                assert(post.active@.no_duplicates()) by {
                    assert forall|a: int, b: int|
                        0 <= a < b < post.active@.len() implies post.active@[a]
                            != post.active@[b] by {
                        if b < pre.active@.len() {
                            assert(post.active@[a] == pre.active@[a]);
                            assert(post.active@[b] == pre.active@[b]);
                        } else {
                            assert(post.active@[b] == task_id);
                            assert(post.active@[a] == pre.active@[a]);
                            assert(pre.active@.contains(pre.active@[a]));
                        }
                    }
                }
            } else {
                assert(post.waiting@ == pre.waiting@.push(task_id));
                assert(post.waiting@.no_duplicates()) by {
                    assert forall|a: int, b: int|
                        0 <= a < b < post.waiting@.len() implies post.waiting@[a]
                            != post.waiting@[b] by {
                        if b < pre.waiting@.len() {
                            assert(post.waiting@[a] == pre.waiting@[a]);
                            assert(post.waiting@[b] == pre.waiting@[b]);
                        } else {
                            assert(post.waiting@[b] == task_id);
                            assert(post.waiting@[a] == pre.waiting@[a]);
                            assert(pre.waiting@.contains(pre.waiting@[a]));
                        }
                    }
                }
            }
            assert forall|k: int|
                0 <= k < post.active@.len() implies has_task_id(
                post.tasks@,
                #[trigger] post.active@[k],
            ) && task_by_id(post.tasks@, post.active@[k]).status is Downloading by {
                let x = post.active@[k];
                if k < pre.active@.len() {
                    assert(pre.active@[k] == x);
                    assert(task_by_id(pre.tasks@, x).status is Downloading);
                    assert(x != task_id);
                } else {
                    assert(x == task_id);
                }
            }
            assert forall|k: int|
                0 <= k < post.waiting@.len() implies has_task_id(
                post.tasks@,
                #[trigger] post.waiting@[k],
            ) && task_by_id(post.tasks@, post.waiting@[k]).status is Waiting by {
                let x = post.waiting@[k];
                if k < pre.waiting@.len() {
                    assert(pre.waiting@[k] == x);
                    assert(task_by_id(pre.tasks@, x).status is Waiting);
                    assert(x != task_id);
                } else {
                    assert(x == task_id);
                }
            }
            assert forall|k: int|
                0 <= k < post.tasks@.len() && (#[trigger] post.tasks@[k]).status
                    is Downloading implies post.active@.contains(post.tasks@[k].id) by {
                if k != i {
                    assert(post.tasks@[k] == pre.tasks@[k]);
                    assert(pre.active@.contains(pre.tasks@[k].id));
                    let m = choose|m: int|
                        0 <= m < pre.active@.len() && pre.active@[m] == pre.tasks@[k].id;
                    if slot_free {
                        assert(post.active@[m] == pre.tasks@[k].id);
                    }
                } else {
                    assert(slot_free);
                    assert(post.active@[post.active@.len() - 1] == task_id);
                }
            }
            assert forall|k: int|
                0 <= k < post.tasks@.len() && (#[trigger] post.tasks@[k]).status
                    is Waiting implies post.waiting@.contains(post.tasks@[k].id) by {
                if k != i {
                    assert(post.tasks@[k] == pre.tasks@[k]);
                    assert(pre.waiting@.contains(pre.tasks@[k].id));
                    let m = choose|m: int|
                        0 <= m < pre.waiting@.len() && pre.waiting@[m] == pre.tasks@[k].id;
                    if !slot_free {
                        assert(post.waiting@[m] == pre.tasks@[k].id);
                    }
                } else {
                    assert(!slot_free);
                    assert(post.waiting@[post.waiting@.len() - 1] == task_id);
                }
            }
            assert(post.progress_seq() == pre.progress_seq());
            assert(post.wf_core());
            assert(post.wf()) by {
                if post.waiting@.len() > 0 {
                    if !slot_free {
                        assert(post.active@.len() == pre.active@.len());
                    } else {
                        assert(pre.waiting@.len() > 0);
                        assert(pre.active@.len() == pre.capacity as int);
                    }
                }
            }
            assert(transitions_respected(pre.tasks@, post.tasks@)) by {
                assert forall|a: int, b: int|
                    0 <= a < pre.tasks@.len() && 0 <= b < post.tasks@.len() && (
                    #[trigger] pre.tasks@[a]).id == (#[trigger] post.tasks@[b]).id implies (
                pre.tasks@[a].status == post.tasks@[b].status || transition_allowed(
                    pre.tasks@[a].status,
                    post.tasks@[b].status,
                )) by {
                    assert(post.tasks@[b].id == pre.tasks@[b].id);
                    if a != b {
                        assert(pre.tasks@[a].id != pre.tasks@[b].id);
                    }
                    if pre.tasks@[a].id != task_id {
                        assert(post.tasks@[a] == pre.tasks@[a]);
                    } else {
                        lemma_task_index_unique(pre.tasks@, a);
                    }
                }
            }
        }
        Ok(events)
    }

    /// Move a downloading task to a terminal status: set the status, free its
    /// slot, promote the head of the waiting queue, and emit the promotion
    /// (if any) followed by the task's status change. A task that is unknown
    /// or not downloading is left untouched and nothing is emitted.
    fn settle_task(
        &mut self,
        task_id: TaskId,
        new_status: DownloadStatus,
        events: &mut Vec<DownloadEvent>,
    ) -> (changed: bool)
        requires
            old(self).wf(),
            new_status is Completed || new_status is Failed,
            old(events)@.len() == 0,
        ensures
            final(self).wf(),
            final(self).capacity_spec() == old(self).capacity_spec(),
            final(self).progress_seq() == old(self).progress_seq(),
            transitions_respected(old(self).tasks_seq(), final(self).tasks_seq()),
            changed <==> (has_task_id(old(self).tasks_seq(), task_id) && task_by_id(
                old(self).tasks_seq(),
                task_id,
            ).status is Downloading),
            !changed ==> same_state(*final(self), *old(self)) && final(events)@ == old(events)@,
            changed ==> ({
                &&& forall|x: TaskId|
                    has_task_id(final(self).tasks_seq(), x) <==> has_task_id(
                        old(self).tasks_seq(),
                        x,
                    )
                &&& task_by_id(final(self).tasks_seq(), task_id).status == new_status
                &&& events_match_state(final(events)@, final(self).tasks_seq())
                &&& if old(self).waiting_ids().len() > 0 {
                    let promoted = old(self).waiting_ids()[0];
                    &&& final(self).active_ids() == remove_first_id(
                        old(self).active_ids(),
                        task_id,
                    ).push(promoted)
                    &&& final(self).waiting_ids() == old(self).waiting_ids().drop_first()
                    &&& task_by_id(final(self).tasks_seq(), promoted).status is Downloading
                    &&& forall|x: TaskId|
                        x != task_id && x != promoted && has_task_id(old(self).tasks_seq(), x)
                            ==> task_by_id(final(self).tasks_seq(), x) == task_by_id(
                            old(self).tasks_seq(),
                            x,
                        )
                    &&& final(events)@ == seq![
                        (DownloadEvent::StatusChanged {
                            task_id: promoted,
                            old_status: DownloadStatus::Waiting,
                            new_status: DownloadStatus::Downloading,
                        }),
                        (DownloadEvent::StatusChanged {
                            task_id,
                            old_status: DownloadStatus::Downloading,
                            new_status,
                        }),
                    ]
                } else {
                    &&& final(self).active_ids() == remove_first_id(
                        old(self).active_ids(),
                        task_id,
                    )
                    &&& final(self).waiting_ids() == old(self).waiting_ids()
                    &&& forall|x: TaskId|
                        x != task_id && has_task_id(old(self).tasks_seq(), x) ==> task_by_id(
                            final(self).tasks_seq(),
                            x,
                        ) == task_by_id(old(self).tasks_seq(), x)
                    &&& final(events)@ == seq![
                        (DownloadEvent::StatusChanged {
                            task_id,
                            old_status: DownloadStatus::Downloading,
                            new_status,
                        }),
                    ]
                }
            }),
    {
        let i = match self.position_of_task(task_id) {
            Some(i) => i,
            None => {
                return false;
            },
        };
        proof {
            lemma_task_index_unique(old(self).tasks@, i as int);
        }
        if !self.tasks[i].status.is_active() {
            return false;
        }
        let ghost pre = *self;
        let event_status = new_status.clone();
        self.set_task_status(i, new_status);
        proof {
            lemma_status_update_facts(pre.tasks@, self.tasks@, task_id, event_status);
        }
        Self::remove_id(&mut self.active, task_id);
        let ghost mid = *self;
        proof {
            lemma_remove_first_id(pre.active@, task_id);
            assert(pre.active@.contains(task_id)) by {
                assert(pre.tasks@[i as int].status is Downloading);
            }
            assert forall|k: int|
                0 <= k < mid.active@.len() implies has_task_id(
                mid.tasks@,
                #[trigger] mid.active@[k],
            ) && task_by_id(mid.tasks@, mid.active@[k]).status is Downloading by {
                let x = mid.active@[k];
                assert(mid.active@.contains(x));
                assert(x != task_id);
                assert(pre.active@.contains(x));
                assert(task_by_id(pre.tasks@, x).status is Downloading);
            }
            assert forall|k: int|
                0 <= k < mid.waiting@.len() implies has_task_id(
                mid.tasks@,
                #[trigger] mid.waiting@[k],
            ) && task_by_id(mid.tasks@, mid.waiting@[k]).status is Waiting by {
                let x = mid.waiting@[k];
                assert(pre.waiting@[k] == x);
                assert(task_by_id(pre.tasks@, x).status is Waiting);
                assert(x != task_id);
            }
            assert forall|k: int|
                0 <= k < mid.tasks@.len() && (#[trigger] mid.tasks@[k]).status
                    is Downloading implies mid.active@.contains(mid.tasks@[k].id) by {
                assert(k != i);
                assert(mid.tasks@[k] == pre.tasks@[k]);
                assert(pre.active@.contains(pre.tasks@[k].id));
                assert(pre.tasks@[k].id != task_id) by {
                    lemma_task_index_unique(pre.tasks@, k);
                }
            }
            assert forall|k: int|
                0 <= k < mid.tasks@.len() && (#[trigger] mid.tasks@[k]).status
                    is Waiting implies mid.waiting@.contains(mid.tasks@[k].id) by {
                assert(k != i);
                assert(mid.tasks@[k] == pre.tasks@[k]);
                assert(pre.waiting@.contains(pre.tasks@[k].id));
            }
            assert(mid.progress_seq() == pre.progress_seq());
            assert(mid.wf_core());
            assert(mid.waiting@.len() > 0 ==> mid.active@.len() + 1 >= mid.capacity);
        }
        self.promote_next(events);
        proof {
            let post = *self;
            if mid.waiting@.len() > 0 && mid.active@.len() < mid.capacity {
                let promoted = mid.waiting@[0];
                assert(promoted != task_id) by {
                    assert(task_by_id(mid.tasks@, promoted).status is Waiting);
                }
                lemma_status_update_facts(
                    mid.tasks@,
                    post.tasks@,
                    promoted,
                    DownloadStatus::Downloading,
                );
                assert(task_by_id(post.tasks@, task_id).status == event_status);
            }
        }
        events.push(
            DownloadEvent::StatusChanged {
                task_id,
                old_status: DownloadStatus::Downloading,
                new_status: event_status,
            },
        );
        proof {
            let post = *self;
            assert(transitions_respected(pre.tasks@, post.tasks@)) by {
                assert forall|a: int, b: int|
                    0 <= a < pre.tasks@.len() && 0 <= b < post.tasks@.len() && (
                    #[trigger] pre.tasks@[a]).id == (#[trigger] post.tasks@[b]).id implies (
                pre.tasks@[a].status == post.tasks@[b].status || transition_allowed(
                    pre.tasks@[a].status,
                    post.tasks@[b].status,
                )) by {
                    assert(post.tasks@.len() == pre.tasks@.len());
                    assert(post.tasks@[b].id == pre.tasks@[b].id);
                    if a != b {
                        assert(pre.tasks@[a].id != pre.tasks@[b].id);
                    }
                    lemma_task_index_unique(pre.tasks@, a);
                    lemma_task_index_unique(post.tasks@, a);
                    let x = pre.tasks@[a].id;
                    assert(pre.tasks@[a] == task_by_id(pre.tasks@, x));
                    assert(post.tasks@[a] == task_by_id(post.tasks@, x));
                    if x == task_id {
                        assert(task_by_id(post.tasks@, x).status == event_status);
                    } else if mid.waiting@.len() > 0 && mid.active@.len() < mid.capacity
                        && x == mid.waiting@[0] {
                        assert(task_by_id(mid.tasks@, x).status is Waiting);
                        assert(task_by_id(pre.tasks@, x) == task_by_id(mid.tasks@, x));
                        assert(task_by_id(post.tasks@, x).status is Downloading);
                    } else {
                        assert(task_by_id(post.tasks@, x) == task_by_id(mid.tasks@, x));
                        assert(task_by_id(mid.tasks@, x) == task_by_id(pre.tasks@, x));
                    }
                }
            }
            if pre.waiting@.len() > 0 {
                assert(pre.active@.len() == pre.capacity as int);
                assert(mid.active@.len() < mid.capacity);
            }
        }
        true
    }

    /// Mark a downloading task completed, free its slot and promote the next
    /// waiter; the promotion (if any), the status change, and the completion
    /// are emitted in that order. A task that is unknown or not downloading is
    /// left untouched. Never fails.
    pub fn complete_task(&mut self, task_id: TaskId) -> (r: Result<
        Vec<DownloadEvent>,
        DownloadError,
    >)
        requires
            old(self).wf(),
        ensures
            final(self).wf(),
            final(self).capacity_spec() == old(self).capacity_spec(),
            final(self).progress_seq() == old(self).progress_seq(),
            transitions_respected(old(self).tasks_seq(), final(self).tasks_seq()),
            r is Ok,
            !(has_task_id(old(self).tasks_seq(), task_id) && task_by_id(
                old(self).tasks_seq(),
                task_id,
            ).status is Downloading) ==> same_state(*final(self), *old(self)) && (r matches Ok(
                events,
            ) ==> events@.len() == 0),
            (has_task_id(old(self).tasks_seq(), task_id) && task_by_id(
                old(self).tasks_seq(),
                task_id,
            ).status is Downloading) ==> (r matches Ok(events) && ({
                &&& task_by_id(final(self).tasks_seq(), task_id).status is Completed
                &&& forall|x: TaskId|
                    has_task_id(final(self).tasks_seq(), x) <==> has_task_id(
                        old(self).tasks_seq(),
                        x,
                    )
                &&& events_match_state(events@, final(self).tasks_seq())
                &&& if old(self).waiting_ids().len() > 0 {
                    let promoted = old(self).waiting_ids()[0];
                    &&& final(self).active_ids() == remove_first_id(
                        old(self).active_ids(),
                        task_id,
                    ).push(promoted)
                    &&& final(self).waiting_ids() == old(self).waiting_ids().drop_first()
                    &&& task_by_id(final(self).tasks_seq(), promoted).status is Downloading
                    &&& forall|x: TaskId|
                        x != task_id && x != promoted && has_task_id(old(self).tasks_seq(), x)
                            ==> task_by_id(final(self).tasks_seq(), x) == task_by_id(
                            old(self).tasks_seq(),
                            x,
                        )
                    &&& events@ == seq![
                        (DownloadEvent::StatusChanged {
                            task_id: promoted,
                            old_status: DownloadStatus::Waiting,
                            new_status: DownloadStatus::Downloading,
                        }),
                        (DownloadEvent::StatusChanged {
                            task_id,
                            old_status: DownloadStatus::Downloading,
                            new_status: DownloadStatus::Completed,
                        }),
                        (DownloadEvent::Completed { task_id }),
                    ]
                } else {
                    &&& final(self).active_ids() == remove_first_id(
                        old(self).active_ids(),
                        task_id,
                    )
                    &&& final(self).waiting_ids() == old(self).waiting_ids()
                    &&& forall|x: TaskId|
                        x != task_id && has_task_id(old(self).tasks_seq(), x) ==> task_by_id(
                            final(self).tasks_seq(),
                            x,
                        ) == task_by_id(old(self).tasks_seq(), x)
                    &&& events@ == seq![
                        (DownloadEvent::StatusChanged {
                            task_id,
                            old_status: DownloadStatus::Downloading,
                            new_status: DownloadStatus::Completed,
                        }),
                        (DownloadEvent::Completed { task_id }),
                    ]
                }
            })),
    {
        let mut events: Vec<DownloadEvent> = Vec::new();
        let changed = self.settle_task(task_id, DownloadStatus::Completed, &mut events);
        if changed {
            events.push(DownloadEvent::Completed { task_id });
        }
        Ok(events)
    }

    /// Mark a downloading task failed with the given reason, free its slot and
    /// promote the next waiter; the promotion (if any), the status change, and
    /// the failure are emitted in that order. A task that is unknown or not
    /// downloading is left untouched. Never fails.
    pub fn fail_task(&mut self, task_id: TaskId, error: String) -> (r: Result<
        Vec<DownloadEvent>,
        DownloadError,
    >)
        requires
            old(self).wf(),
        ensures
            final(self).wf(),
            final(self).capacity_spec() == old(self).capacity_spec(),
            final(self).progress_seq() == old(self).progress_seq(),
            transitions_respected(old(self).tasks_seq(), final(self).tasks_seq()),
            r is Ok,
            !(has_task_id(old(self).tasks_seq(), task_id) && task_by_id(
                old(self).tasks_seq(),
                task_id,
            ).status is Downloading) ==> same_state(*final(self), *old(self)) && (r matches Ok(
                events,
            ) ==> events@.len() == 0),
            (has_task_id(old(self).tasks_seq(), task_id) && task_by_id(
                old(self).tasks_seq(),
                task_id,
            ).status is Downloading) ==> (r matches Ok(events) && ({
                &&& task_by_id(final(self).tasks_seq(), task_id).status == (
                DownloadStatus::Failed(error))
                &&& forall|x: TaskId|
                    has_task_id(final(self).tasks_seq(), x) <==> has_task_id(
                        old(self).tasks_seq(),
                        x,
                    )
                &&& events_match_state(events@, final(self).tasks_seq())
                &&& if old(self).waiting_ids().len() > 0 {
                    let promoted = old(self).waiting_ids()[0];
                    &&& final(self).active_ids() == remove_first_id(
                        old(self).active_ids(),
                        task_id,
                    ).push(promoted)
                    &&& final(self).waiting_ids() == old(self).waiting_ids().drop_first()
                    &&& task_by_id(final(self).tasks_seq(), promoted).status is Downloading
                    &&& forall|x: TaskId|
                        x != task_id && x != promoted && has_task_id(old(self).tasks_seq(), x)
                            ==> task_by_id(final(self).tasks_seq(), x) == task_by_id(
                            old(self).tasks_seq(),
                            x,
                        )
                    &&& events@ == seq![
                        (DownloadEvent::StatusChanged {
                            task_id: promoted,
                            old_status: DownloadStatus::Waiting,
                            new_status: DownloadStatus::Downloading,
                        }),
                        (DownloadEvent::StatusChanged {
                            task_id,
                            old_status: DownloadStatus::Downloading,
                            new_status: (DownloadStatus::Failed(error)),
                        }),
                        (DownloadEvent::Failed { task_id, error }),
                    ]
                } else {
                    &&& final(self).active_ids() == remove_first_id(
                        old(self).active_ids(),
                        task_id,
                    )
                    &&& final(self).waiting_ids() == old(self).waiting_ids()
                    &&& forall|x: TaskId|
                        x != task_id && has_task_id(old(self).tasks_seq(), x) ==> task_by_id(
                            final(self).tasks_seq(),
                            x,
                        ) == task_by_id(old(self).tasks_seq(), x)
                    &&& events@ == seq![
                        (DownloadEvent::StatusChanged {
                            task_id,
                            old_status: DownloadStatus::Downloading,
                            new_status: (DownloadStatus::Failed(error)),
                        }),
                        (DownloadEvent::Failed { task_id, error }),
                    ]
                }
            })),
    {
        let mut events: Vec<DownloadEvent> = Vec::new();
        let failed_status = DownloadStatus::Failed(error.clone());
        let changed = self.settle_task(task_id, failed_status, &mut events);
        if changed {
            events.push(DownloadEvent::Failed { task_id, error });
        }
        Ok(events)
    }

    /// Cancel a task: drop it from the registry and from whichever list
    /// holds it, then promote the next waiter into the freed slot. Cancelling
    /// an unknown identifier changes nothing; cancel never fails, so calling
    /// it again is a no-op. Stored progress is kept, as the registry entry
    /// alone names the task.
    pub fn cancel_task(&mut self, task_id: TaskId) -> (r: Result<
        Vec<DownloadEvent>,
        DownloadError,
    >)
        requires
            old(self).wf(),
        ensures
            final(self).wf(),
            final(self).capacity_spec() == old(self).capacity_spec(),
            final(self).progress_seq() == old(self).progress_seq(),
            transitions_respected(old(self).tasks_seq(), final(self).tasks_seq()),
            r is Ok,
            !has_task_id(final(self).tasks_seq(), task_id),
            forall|x: TaskId|
                x != task_id ==> (has_task_id(final(self).tasks_seq(), x) <==> has_task_id(
                    old(self).tasks_seq(),
                    x,
                )),
            !has_task_id(old(self).tasks_seq(), task_id) ==> same_state(*final(self), *old(self))
                && (r matches Ok(events) ==> events@.len() == 0),
            has_task_id(old(self).tasks_seq(), task_id) ==> (r matches Ok(events) && ({
                let t0 = task_by_id(old(self).tasks_seq(), task_id);
                &&& events_match_state(events@, final(self).tasks_seq())
                &&& if t0.status is Downloading && old(self).waiting_ids().len() > 0 {
                    let promoted = old(self).waiting_ids()[0];
                    &&& final(self).active_ids() == remove_first_id(
                        old(self).active_ids(),
                        task_id,
                    ).push(promoted)
                    &&& final(self).waiting_ids() == old(self).waiting_ids().drop_first()
                    &&& task_by_id(final(self).tasks_seq(), promoted).status is Downloading
                    &&& forall|x: TaskId|
                        x != task_id && x != promoted && has_task_id(old(self).tasks_seq(), x)
                            ==> task_by_id(final(self).tasks_seq(), x) == task_by_id(
                            old(self).tasks_seq(),
                            x,
                        )
                    &&& events@ == seq![
                        (DownloadEvent::StatusChanged {
                            task_id: promoted,
                            old_status: DownloadStatus::Waiting,
                            new_status: DownloadStatus::Downloading,
                        }),
                    ]
                } else {
                    &&& final(self).active_ids() == remove_first_id(
                        old(self).active_ids(),
                        task_id,
                    )
                    &&& final(self).waiting_ids() == remove_first_id(
                        old(self).waiting_ids(),
                        task_id,
                    )
                    &&& events@.len() == 0
                    &&& forall|x: TaskId|
                        x != task_id && has_task_id(old(self).tasks_seq(), x) ==> task_by_id(
                            final(self).tasks_seq(),
                            x,
                        ) == task_by_id(old(self).tasks_seq(), x)
                }
            })),
    {
        let mut events: Vec<DownloadEvent> = Vec::new();
        let i = match self.position_of_task(task_id) {
            Some(i) => i,
            None => {
                return Ok(events);
            },
        };
        proof {
            lemma_task_index_unique(old(self).tasks@, i as int);
        }
        let ghost pre = *self;
        let ghost t0 = pre.tasks@[i as int];
        let was_downloading = self.tasks[i].status.is_active();
        let ghost was_waiting = pre.tasks@[i as int].status is Waiting;
        let _removed = self.tasks.remove(i);
        Self::remove_id(&mut self.active, task_id);
        Self::remove_id(&mut self.waiting, task_id);
        let ghost mid = *self;
        proof {
            lemma_remove_task_facts(pre.tasks@, i as int);
            lemma_remove_first_id(pre.active@, task_id);
            lemma_remove_first_id(pre.waiting@, task_id);
            if was_downloading {
                assert(pre.active@.contains(task_id));
                assert(!pre.waiting@.contains(task_id)) by {
                    if pre.waiting@.contains(task_id) {
                        assert(task_by_id(pre.tasks@, task_id).status is Waiting);
                    }
                }
                assert(mid.waiting@ == pre.waiting@);
            } else {
                assert(!pre.active@.contains(task_id)) by {
                    if pre.active@.contains(task_id) {
                        assert(task_by_id(pre.tasks@, task_id).status is Downloading);
                    }
                }
                assert(mid.active@ == pre.active@);
                if was_waiting {
                    assert(pre.waiting@.contains(task_id));
                } else {
                    assert(!pre.waiting@.contains(task_id)) by {
                        if pre.waiting@.contains(task_id) {
                            assert(task_by_id(pre.tasks@, task_id).status is Waiting);
                        }
                    }
                    assert(mid.waiting@ == pre.waiting@);
                }
            }
            assert forall|k: int|
                0 <= k < mid.active@.len() implies has_task_id(
                mid.tasks@,
                #[trigger] mid.active@[k],
            ) && task_by_id(mid.tasks@, mid.active@[k]).status is Downloading by {
                let x = mid.active@[k];
                assert(mid.active@.contains(x));
                assert(x != task_id);
                assert(pre.active@.contains(x));
                assert(task_by_id(pre.tasks@, x).status is Downloading);
                assert(has_task_id(pre.tasks@, x));
            }
            assert forall|k: int|
                0 <= k < mid.waiting@.len() implies has_task_id(
                mid.tasks@,
                #[trigger] mid.waiting@[k],
            ) && task_by_id(mid.tasks@, mid.waiting@[k]).status is Waiting by {
                let x = mid.waiting@[k];
                assert(mid.waiting@.contains(x));
                assert(x != task_id);
                assert(pre.waiting@.contains(x));
                assert(task_by_id(pre.tasks@, x).status is Waiting);
                assert(has_task_id(pre.tasks@, x));
            }
            assert forall|k: int|
                0 <= k < mid.tasks@.len() && (#[trigger] mid.tasks@[k]).status
                    is Downloading implies mid.active@.contains(mid.tasks@[k].id) by {
                let k0 = if k < i {
                    k
                } else {
                    k + 1
                };
                assert(mid.tasks@[k] == pre.tasks@[k0]) by {
                    pre.tasks@.remove_ensures(i as int);
                }
                assert(pre.active@.contains(pre.tasks@[k0].id));
                assert(pre.tasks@[k0].id != task_id) by {
                    lemma_task_index_unique(pre.tasks@, k0);
                }
            }
            assert forall|k: int|
                0 <= k < mid.tasks@.len() && (#[trigger] mid.tasks@[k]).status
                    is Waiting implies mid.waiting@.contains(mid.tasks@[k].id) by {
                let k0 = if k < i {
                    k
                } else {
                    k + 1
                };
                assert(mid.tasks@[k] == pre.tasks@[k0]) by {
                    pre.tasks@.remove_ensures(i as int);
                }
                assert(pre.waiting@.contains(pre.tasks@[k0].id));
                assert(pre.tasks@[k0].id != task_id) by {
                    lemma_task_index_unique(pre.tasks@, k0);
                }
            }
            assert(mid.progress_seq() == pre.progress_seq());
            assert(mid.wf_core());
            assert(mid.waiting@.len() > 0 ==> mid.active@.len() + 1 >= mid.capacity) by {
                if mid.waiting@.len() > 0 {
                    assert(pre.waiting@.len() > 0);
                }
            }
        }
        self.promote_next(&mut events);
        proof {
            let post = *self;
            if mid.waiting@.len() > 0 && mid.active@.len() < mid.capacity {
                let promoted = mid.waiting@[0];
                lemma_status_update_facts(
                    mid.tasks@,
                    post.tasks@,
                    promoted,
                    DownloadStatus::Downloading,
                );
                assert(was_downloading) by {
                    if !was_downloading {
                        assert(mid.active@ == pre.active@);
                        assert(pre.waiting@.len() > 0);
                        assert(pre.active@.len() == pre.capacity as int);
                    }
                }
                assert(pre.waiting@.len() > 0);
            } else {
                if has_task_id(pre.tasks@, task_id) && task_by_id(
                    pre.tasks@,
                    task_id,
                ).status is Downloading && pre.waiting@.len() > 0 {
                    assert(pre.active@.len() == pre.capacity as int);
                    assert(pre.active@.contains(task_id));
                    assert(mid.active@.len() < mid.capacity);
                    assert(mid.waiting@.len() > 0);
                }
            }
            assert(transitions_respected(pre.tasks@, post.tasks@)) by {
                assert forall|a: int, b: int|
                    0 <= a < pre.tasks@.len() && 0 <= b < post.tasks@.len() && (
                    #[trigger] pre.tasks@[a]).id == (#[trigger] post.tasks@[b]).id implies (
                pre.tasks@[a].status == post.tasks@[b].status || transition_allowed(
                    pre.tasks@[a].status,
                    post.tasks@[b].status,
                )) by {
                    let x = pre.tasks@[a].id;
                    lemma_task_index_unique(pre.tasks@, a);
                    if x != task_id {
                        assert(has_task_id(mid.tasks@, x));
                        assert(task_by_id(mid.tasks@, x) == task_by_id(pre.tasks@, x));
                        if mid.waiting@.len() > 0 && mid.active@.len() < mid.capacity {
                            let promoted = mid.waiting@[0];
                            if x == promoted {
                                assert(task_by_id(mid.tasks@, x).status is Waiting);
                                assert(task_by_id(post.tasks@, x).status is Downloading);
                            } else {
                                assert(task_by_id(post.tasks@, x) == task_by_id(mid.tasks@, x));
                            }
                        } else {
                            assert(post.tasks@ == mid.tasks@);
                        }
                        let bi = task_index(post.tasks@, x);
                        assert(has_task_id(post.tasks@, x)) by {
                            assert(post.tasks@[b].id == x);
                        }
                        lemma_task_index_unique(post.tasks@, b);
                        assert(post.tasks@[b] == task_by_id(post.tasks@, x));
                        assert(pre.tasks@[a] == task_by_id(pre.tasks@, x));
                    } else {
                        assert(!has_task_id(mid.tasks@, x));
                        if mid.waiting@.len() > 0 && mid.active@.len() < mid.capacity {
                            assert(has_task_id(post.tasks@, x) <==> has_task_id(mid.tasks@, x));
                        }
                        assert(!has_task_id(post.tasks@, x));
                        assert(post.tasks@[b].id == x);
                        assert(false);
                    }
                }
            }
        }
        Ok(events)
    }

    /// Store a progress snapshot for a known task and emit the update. Fails
    /// with `TaskNotFound` for an unknown identifier.
    pub fn update_progress(&mut self, task_id: TaskId, progress: DownloadProgress) -> (r: Result<
        Vec<DownloadEvent>,
        DownloadError,
    >)
        requires
            old(self).wf(),
            progress.total_bytes matches Some(t) ==> progress.downloaded_bytes <= t,
        ensures
            final(self).wf(),
            final(self).tasks_seq() == old(self).tasks_seq(),
            final(self).active_ids() == old(self).active_ids(),
            final(self).waiting_ids() == old(self).waiting_ids(),
            final(self).capacity_spec() == old(self).capacity_spec(),
            r is Ok <==> has_task_id(old(self).tasks_seq(), task_id),
            !has_task_id(old(self).tasks_seq(), task_id) <==> (r matches Err(e) && e matches
                DownloadError::TaskNotFound(i) && i == task_id),
            r is Err ==> same_state(*final(self), *old(self)),
            r matches Ok(events) ==> ({
                &&& has_progress(final(self).progress_seq(), task_id)
                &&& progress_of(final(self).progress_seq(), task_id) == progress
                &&& forall|x: TaskId|
                    x != task_id ==> (has_progress(final(self).progress_seq(), x) <==> has_progress(
                        old(self).progress_seq(),
                        x,
                    ))
                &&& forall|x: TaskId|
                    x != task_id && has_progress(old(self).progress_seq(), x) ==> progress_of(
                        final(self).progress_seq(),
                        x,
                    ) == progress_of(old(self).progress_seq(), x)
                &&& events@ == seq![
                    (DownloadEvent::ProgressUpdated { task_id, progress }),
                ]
            }),
    {
        match self.position_of_task(task_id) {
            Some(_) => {},
            None => {
                return Err(DownloadError::TaskNotFound(task_id));
            },
        }
        let ghost pre_entries = self.progress_entries@;
        let pos = Self::entry_position(&self.progress_entries, task_id);
        let ghost j_spec: int = match pos {
            Some(j) => j as int,
            None => pre_entries.len() as int,
        };
        match pos {
            Some(j) => {
                let ghost pe = self.progress_entries@;
                self.progress_entries.remove(j);
                proof {
                    pe.remove_ensures(j as int);
                }
                self.progress_entries.insert(j, (task_id, progress.clone()));
                proof {
                    pe.remove(j as int).insert_ensures(j as int, (task_id, progress));
                    assert forall|k: int|
                        0 <= k < pe.len() && k != j implies self.progress_entries@[k] == pe[k] by {
                        if k < j {
                            assert(self.progress_entries@[k] == pe.remove(j as int)[k]);
                        } else {
                            assert(self.progress_entries@[k] == pe.remove(j as int)[k - 1]);
                        }
                    }
                }
            },
            None => {
                self.progress_entries.push((task_id, progress.clone()));
            },
        }
        let mut events: Vec<DownloadEvent> = Vec::new();
        events.push(DownloadEvent::ProgressUpdated { task_id, progress: progress.clone() });
        proof {
            let post = self.progress_entries@;
            let j = j_spec;
            assert(post.len() == if j < pre_entries.len() {
                pre_entries.len() as int
            } else {
                pre_entries.len() + 1 as int
            });
            assert(post[j].0 == task_id && post[j].1 == progress);
            assert(forall|k: int| 0 <= k < post.len() && k != j ==> post[k] == pre_entries[k]);
            assert forall|k: int|
                0 <= k < pre_entries.len() && k != j implies (#[trigger] pre_entries[k]).0
                != task_id by {
                if j < pre_entries.len() {
                    assert(pre_entries[j].0 == task_id);
                    if k < j {
                        assert(pre_entries[k].0 != pre_entries[j].0);
                    } else {
                        assert(pre_entries[j].0 != pre_entries[k].0);
                    }
                } else {
                    if pre_entries[k].0 == task_id {
                        assert(has_progress(pre_entries, task_id));
                    }
                }
            }
            assert forall|a: int, b: int|
                0 <= a < b < post.len() implies (#[trigger] post[a]).0 != (
            #[trigger] post[b]).0 by {
                if a != j && b != j {
                    assert(post[a] == pre_entries[a] && post[b] == pre_entries[b]);
                } else if a == j {
                    assert(post[b] == pre_entries[b]);
                } else {
                    assert(post[a] == pre_entries[a]);
                }
            }
            assert(has_progress(post, task_id)) by {
                assert(post[j].0 == task_id);
            }
            assert(progress_of(post, task_id) == progress) by {
                let k = choose|k: int| 0 <= k < post.len() && (#[trigger] post[k]).0 == task_id;
                if k != j {
                    assert(post[k] == pre_entries[k]);
                }
            }
            assert forall|x: TaskId|
                x != task_id implies (has_progress(post, x) <==> has_progress(
                pre_entries,
                x,
            )) by {
                if has_progress(post, x) {
                    let k = choose|k: int| 0 <= k < post.len() && (#[trigger] post[k]).0 == x;
                    assert(k != j);
                    assert(post[k] == pre_entries[k]);
                }
                if has_progress(pre_entries, x) {
                    let k = choose|k: int|
                        0 <= k < pre_entries.len() && (#[trigger] pre_entries[k]).0 == x;
                    assert(k != j);
                    assert(post[k] == pre_entries[k]);
                }
            }
            assert forall|x: TaskId|
                x != task_id && has_progress(pre_entries, x) implies progress_of(post, x)
                    == progress_of(pre_entries, x) by {
                let k2 = choose|k2: int| 0 <= k2 < post.len() && (#[trigger] post[k2]).0 == x;
                let k3 = choose|k3: int|
                    0 <= k3 < pre_entries.len() && (#[trigger] pre_entries[k3]).0 == x;
                assert(has_progress(post, x)) by {
                    assert(k3 != j);
                    assert(post[k3] == pre_entries[k3]);
                }
                assert(post[k2].0 == x && pre_entries[k3].0 == x);
                assert(k2 != j);
                assert(post[k2] == pre_entries[k2]);
                if k2 != k3 {
                    assert(pre_entries[k2].0 != pre_entries[k3].0);
                }
            }
        }
        Ok(events)
    }

    /// The stored progress of a known task, or the empty snapshot when none
    /// was stored yet. Fails with `TaskNotFound` for an unknown identifier.
    pub fn get_progress(&self, task_id: TaskId) -> (r: Result<DownloadProgress, DownloadError>)
        requires
            self.wf(),
        ensures
            r is Ok <==> has_task_id(self.tasks_seq(), task_id),
            !has_task_id(self.tasks_seq(), task_id) <==> (r matches Err(e) && e matches
                DownloadError::TaskNotFound(i) && i == task_id),
            r matches Ok(p) ==> (p.total_bytes matches Some(t) ==> p.downloaded_bytes <= t),
            r matches Ok(p) ==> ({
                if has_progress(self.progress_seq(), task_id) {
                    p == progress_of(self.progress_seq(), task_id)
                } else {
                    p.downloaded_bytes == 0 && p.total_bytes is None && p.speed_bps == 0
                        && p.eta_seconds is None
                }
            }),
    {
        match self.position_of_task(task_id) {
            Some(i) => {
                proof {
                    assert(has_task_id(self.tasks@, task_id)) by {
                        assert(self.tasks@[i as int].id == task_id);
                    }
                }
            },
            None => {
                return Err(DownloadError::TaskNotFound(task_id));
            },
        }
        let mut j: usize = 0;
        while j < self.progress_entries.len()
            invariant
                j <= self.progress_entries@.len(),
                forall|k: int| 0 <= k < j ==> (#[trigger] self.progress_entries@[k]).0 != task_id,
                self.wf(),
                has_task_id(self.tasks_seq(), task_id),
            decreases self.progress_entries@.len() - j,
        {
            if self.progress_entries[j].0.0 == task_id.0 {
                proof {
                    let ps = self.progress_seq();
                    assert(has_progress(ps, task_id)) by {
                        assert(ps[j as int].0 == task_id);
                    }
                    let k = choose|k: int| 0 <= k < ps.len() && (#[trigger] ps[k]).0 == task_id;
                    if k < j {
                        assert((ps[k]).0 != (ps[j as int]).0);
                    } else if k > j {
                        assert((ps[j as int]).0 != (ps[k]).0);
                    }
                }
                return Ok(self.progress_entries[j].1.clone());
            }
            j += 1;
        }
        proof {
            if has_progress(self.progress_entries@, task_id) {
                let k = choose|k: int|
                    0 <= k < self.progress_entries@.len() && (
                    #[trigger] self.progress_entries@[k]).0 == task_id;
                assert(self.progress_entries@[k].0 != task_id);
            }
        }
        Ok(DownloadProgress::new())
    }

    /// The task with the given identifier. Fails with `TaskNotFound` for an
    /// unknown identifier.
    pub fn get_task(&self, task_id: TaskId) -> (r: Result<DownloadTask, DownloadError>)
        requires
            self.wf(),
        ensures
            r is Ok <==> has_task_id(self.tasks_seq(), task_id),
            !has_task_id(self.tasks_seq(), task_id) <==> (r matches Err(e) && e matches
                DownloadError::TaskNotFound(i) && i == task_id),
            r matches Ok(t) ==> t == task_by_id(self.tasks_seq(), task_id),
    {
        match self.position_of_task(task_id) {
            Some(i) => {
                proof {
                    lemma_task_index_unique(self.tasks@, i as int);
                }
                Ok(self.tasks[i].clone())
            },
            None => Err(DownloadError::TaskNotFound(task_id)),
        }
    }

    /// Every known task, in registration order. Never fails.
    pub fn list_tasks(&self) -> (r: Result<Vec<DownloadTask>, DownloadError>)
        ensures
            r matches Ok(v) && v@ == self.tasks_seq(),
    {
        let mut out: Vec<DownloadTask> = Vec::new();
        let mut i: usize = 0;
        while i < self.tasks.len()
            invariant
                i <= self.tasks@.len(),
                out@.len() == i,
                forall|k: int| 0 <= k < i ==> out@[k] == self.tasks@[k],
            decreases self.tasks@.len() - i,
        {
            out.push(self.tasks[i].clone());
            i += 1;
        }
        proof {
            assert(out@ =~= self.tasks@);
        }
        Ok(out)
    }

    /// The index of the task the duplicate gate consults for the request: the first
    /// non-terminal match if any, else the first match.
    fn find_gate_index(&self, url: &str, target_path: &str) -> (r: Option<usize>)
        ensures
            match r {
                Some(i) => is_gate_match(self.tasks_seq(), url@, target_path@, i as int),
                None => !some_match(self.tasks_seq(), url@, target_path@),
            },
    {
        let mut i: usize = 0;
        while i < self.tasks.len()
            invariant
                i <= self.tasks@.len(),
                forall|k: int|
                    0 <= k < i ==> !(matches_request(#[trigger] self.tasks@[k], url@, target_path@)
                        && !self.tasks@[k].status.spec_is_finished()),
            decreases self.tasks@.len() - i,
        {
            if !self.tasks[i].status.is_finished() && crate::text::str_eq(
                self.tasks[i].url.as_str(),
                url,
            ) && crate::text::str_eq(self.tasks[i].target_path.as_str(), target_path) {
                proof {
                    assert(some_live_match(self.tasks@, url@, target_path@)) by {
                        assert(matches_request(self.tasks@[i as int], url@, target_path@)
                            && !self.tasks@[i as int].status.spec_is_finished());
                    }
                }
                return Some(i);
            }
            i += 1;
        }
        proof {
            if some_live_match(self.tasks@, url@, target_path@) {
                let k = choose|k: int|
                    0 <= k < self.tasks@.len() && matches_request(
                        #[trigger] self.tasks@[k],
                        url@,
                        target_path@,
                    ) && !self.tasks@[k].status.spec_is_finished();
                assert(!(matches_request(self.tasks@[k], url@, target_path@)
                    && !self.tasks@[k].status.spec_is_finished()));
            }
        }
        let mut j: usize = 0;
        while j < self.tasks.len()
            invariant
                j <= self.tasks@.len(),
                !some_live_match(self.tasks@, url@, target_path@),
                forall|k: int|
                    0 <= k < j ==> !matches_request(#[trigger] self.tasks@[k], url@, target_path@),
            decreases self.tasks@.len() - j,
        {
            if crate::text::str_eq(self.tasks[j].url.as_str(), url) && crate::text::str_eq(
                self.tasks[j].target_path.as_str(),
                target_path,
            ) {
                return Some(j);
            }
            j += 1;
        }
        proof {
            if some_match(self.tasks@, url@, target_path@) {
                let k = choose|k: int|
                    0 <= k < self.tasks@.len() && matches_request(
                        #[trigger] self.tasks@[k],
                        url@,
                        target_path@,
                    );
                assert(!matches_request(self.tasks@[k], url@, target_path@));
            }
        }
        None
    }

    /// Whether a task with the given identifier is registered.
    pub fn verify_task_validity(&self, task_id: &TaskId) -> (r: Result<bool, DownloadError>)
        ensures
            r matches Ok(b) && b == has_task_id(self.tasks_seq(), *task_id),
    {
        match self.position_of_task(*task_id) {
            Some(i) => {
                proof {
                    assert(has_task_id(self.tasks@, *task_id)) by {
                        assert(self.tasks@[i as int].id == *task_id);
                    }
                }
                Ok(true)
            },
            None => Ok(false),
        }
    }

    /// Canonicalize the URL and look the request up in the registry by its
    /// canonical form and target path; the first match's identifier is
    /// returned. Fails with `InvalidUrl` exactly when the URL does not parse.
    pub fn find_duplicate_task(&self, url: &str, target_path: &str) -> (r: Result<
        Option<TaskId>,
        DownloadError,
    >)
        requires
            self.wf(),
        ensures
            r is Err <==> !crate::url_normalization::url_parseable(url@),
            r matches Err(e) ==> e is InvalidUrl,
            r matches Ok(o) ==> (match o {
                Some(id) => has_task_id(self.tasks_seq(), id) && task_by_id(
                    self.tasks_seq(),
                    id,
                ).target_path@ == target_path@ && (exists|i: int|
                    0 <= i < self.tasks_seq().len() && (#[trigger] self.tasks_seq()[i]).id == id
                        && is_first_match(
                        self.tasks_seq(),
                        crate::url_normalization::canonical_text_of(url@),
                        target_path@,
                        i,
                    )),
                None => !some_match(
                    self.tasks_seq(),
                    crate::url_normalization::canonical_text_of(url@),
                    target_path@,
                ),
            }),
    {
        let canonical = match crate::url_normalization::normalize_url(url) {
            Ok(c) => c,
            Err(e) => {
                return Err(e);
            },
        };
        let found = find_matching_task(&self.tasks, canonical.as_str(), target_path);
        proof {
            assert(canonical@ == crate::url_normalization::canonical_text_of(url@));
            if let Some(id) = found {
                let i = choose|i: int|
                    0 <= i < self.tasks@.len() && (#[trigger] self.tasks@[i]).id == id
                        && is_first_match(self.tasks@, canonical@, target_path@, i);
                assert(has_task_id(self.tasks@, id)) by {
                    assert(self.tasks@[i].id == id);
                }
                lemma_task_index_unique(self.tasks@, i);
                assert(task_by_id(self.tasks@, id).target_path@ == target_path@);
                assert(0 <= i < self.tasks_seq().len() && self.tasks_seq()[i].id == id
                    && is_first_match(
                    self.tasks_seq(),
                    crate::url_normalization::canonical_text_of(url@),
                    target_path@,
                    i,
                ));
            }
        }
        Ok(found)
    }

    /// Canonicalize the URL and collect the identifiers of every registered
    /// task matching the canonical form and target path, in registration
    /// order. Fails with `InvalidUrl` exactly when the URL does not parse.
    pub fn get_duplicate_candidates(&self, url: &str, target_path: &str) -> (r: Result<
        Vec<TaskId>,
        DownloadError,
    >)
        ensures
            r is Err <==> !crate::url_normalization::url_parseable(url@),
            r matches Err(e) ==> e is InvalidUrl,
            r matches Ok(v) ==> v@ == matching_ids(
                self.tasks_seq(),
                crate::url_normalization::canonical_text_of(url@),
                target_path@,
            ),
    {
        let canonical = match crate::url_normalization::normalize_url(url) {
            Ok(c) => c,
            Err(e) => {
                return Err(e);
            },
        };
        let ids = collect_matching_ids(&self.tasks, canonical.as_str(), target_path);
        proof {
            assert(canonical@ == crate::url_normalization::canonical_text_of(url@));
        }
        Ok(ids)
    }

    /// The duplicate gate over an already canonical URL: look the identity
    /// (canonical URL, target path) up, preferring a non-terminal match, and
    /// apply the policy — reuse the match (resuming it when it was paused or
    /// failed), reject the submission, surface the candidates for a decision,
    /// or admit a new task.
    pub fn add_canonical_with_policy(
        &mut self,
        canonical_url: String,
        target_path: &str,
        policy: DuplicatePolicy,
    ) -> (r: Result<(DuplicateResult, Vec<DownloadEvent>), DownloadError>)
        requires
            old(self).wf(),
        ensures
            final(self).wf(),
            final(self).capacity_spec() == old(self).capacity_spec(),
            final(self).progress_seq() == old(self).progress_seq(),
            transitions_respected(old(self).tasks_seq(), final(self).tasks_seq()),
            unique_identities(old(self).tasks_seq()) && !(policy is AllowDuplicate) && !(policy
                is ReuseIfComplete) ==> unique_identities(final(self).tasks_seq()),
            r matches Err(e) ==> (e is General || e matches DownloadError::PolicyViolation { .. })
                && same_state(*final(self), *old(self)),
            gate_behavior(*old(self), *final(self), canonical_url@, target_path@, policy, r),
            r matches Ok(p) ==> events_match_state(p.1@, final(self).tasks_seq()),
    {
        let ghost pre = *self;
        let gate = self.find_gate_index(canonical_url.as_str(), target_path);
        match gate {
            Some(i) => {
                let t_id = self.tasks[i].id;
                proof {
                    lemma_task_index_unique(pre.tasks@, i as int);
                }
                let ts = TaskStatus::from_download_status(self.tasks[i].status.clone());
                if policy.allows_reuse(&ts) {
                    let can_resume = self.tasks[i].status.can_resume();
                    let mut events: Vec<DownloadEvent> = Vec::new();
                    if can_resume {
                        match self.resume_task(t_id) {
                            Ok(ev) => {
                                events = ev;
                            },
                            Err(_) => {
                                proof {
                                    assert(has_task_id(pre.tasks@, t_id)) by {
                                        assert(pre.tasks@[i as int].id == t_id);
                                    }
                                    assert(task_by_id(pre.tasks@, t_id)
                                        == pre.tasks@[i as int]);
                                }
                                return vstd::pervasive::unreached();
                            },
                        }
                        proof {
                            if unique_identities(pre.tasks@) {
                                let t0 = pre.tasks@[i as int];
                                assert(has_task_id(pre.tasks@, t_id));
                                assert(task_by_id(pre.tasks@, t_id) == t0);
                                if t0.status is Failed {
                                    assert(!some_live_match(
                                        pre.tasks@,
                                        canonical_url@,
                                        target_path@,
                                    )) by {
                                        if some_live_match(
                                            pre.tasks@,
                                            canonical_url@,
                                            target_path@,
                                        ) {
                                            assert(is_first_live_match(
                                                pre.tasks@,
                                                canonical_url@,
                                                target_path@,
                                                i as int,
                                            ));
                                        }
                                    }
                                    assert(task_by_id(self.tasks@, t_id).url@ == t0.url@);
                                    assert(t0.url@ == canonical_url@ && t0.target_path@
                                        == target_path@);
                                    lemma_unique_identities_revive(
                                        pre.tasks@,
                                        self.tasks@,
                                        t_id,
                                        canonical_url@,
                                        target_path@,
                                    );
                                } else {
                                    assert(t0.status is Paused);
                                    assert forall|x: TaskId| #[trigger]
                                        has_task_id(self.tasks@, x) implies task_by_id(
                                        self.tasks@,
                                        x,
                                    ).id == x && task_by_id(pre.tasks@, x).id == x && task_by_id(
                                        self.tasks@,
                                        x,
                                    ).url@ == task_by_id(pre.tasks@, x).url@ && task_by_id(
                                        self.tasks@,
                                        x,
                                    ).target_path@ == task_by_id(pre.tasks@, x).target_path@ && (
                                    !task_by_id(self.tasks@, x).status.spec_is_finished()
                                        ==> !task_by_id(
                                        pre.tasks@,
                                        x,
                                    ).status.spec_is_finished()) by {
                                        assert(has_task_id(pre.tasks@, x));
                                        let k = task_index(pre.tasks@, x);
                                        lemma_task_index_unique(pre.tasks@, k);
                                        let k2 = task_index(self.tasks@, x);
                                        lemma_task_index_unique(self.tasks@, k2);
                                        if x != t_id {
                                            assert(task_by_id(self.tasks@, x) == task_by_id(
                                                pre.tasks@,
                                                x,
                                            ));
                                        }
                                    }
                                    lemma_unique_identities_preserved(pre.tasks@, self.tasks@);
                                }
                            }
                        }
                    }
                    return Ok(
                        (
                            DuplicateResult::ExistingTask {
                                task_id: t_id,
                                status: ts,
                                reason: DuplicateReason::UrlAndPath,
                            },
                            events,
                        ),
                    );
                } else if policy.should_fail_on_duplicate() {
                    return Err(
                        DownloadError::PolicyViolation {
                            task_id: t_id,
                            reason: "Duplicate found but policy forbids reuse".to_owned(),
                        },
                    );
                } else if policy.requires_user_decision() {
                    let candidates = collect_matching_ids(
                        &self.tasks,
                        canonical_url.as_str(),
                        target_path,
                    );
                    let suggested = match &self.tasks[i].status {
                        DownloadStatus::Paused => DuplicateAction::Resume(t_id),
                        DownloadStatus::Failed(_) => DuplicateAction::Retry(t_id),
                        _ => DuplicateAction::Reuse(t_id),
                    };
                    return Ok(
                        (
                            DuplicateResult::RequiresDecision {
                                candidates,
                                suggested_action: suggested,
                            },
                            Vec::new(),
                        ),
                    );
                }
            },
            None => {},
        }
        let added = self.add_task(canonical_url, target_path.to_owned());
        match added {
            Ok((id, events)) => {
                proof {
                    if unique_identities(pre.tasks@) && !(policy is AllowDuplicate) && !(policy
                        is ReuseIfComplete) {
                        assert(!some_live_match(pre.tasks@, canonical_url@, target_path@)) by {
                            if some_live_match(pre.tasks@, canonical_url@, target_path@) {
                                assert(gate is Some);
                                let gi = gate->Some_0 as int;
                                assert(is_first_live_match(
                                    pre.tasks@,
                                    canonical_url@,
                                    target_path@,
                                    gi,
                                ));
                                let t = pre.tasks@[gi];
                                let ts2 = TaskStatus::spec_from_download_status(t.status);
                                assert(!t.status.spec_is_finished());
                                assert(policy.spec_allows_reuse(&ts2));
                            }
                        }
                        lemma_unique_identities_extend(
                            pre.tasks@,
                            self.tasks@,
                            canonical_url@,
                            target_path@,
                        );
                    }
                }
                Ok((DuplicateResult::NewTask(id), events))
            },
            Err(e) => Err(e),
        }
    }

    /// The duplicate gate: canonicalize the URL, look the identity (canonical
    /// URL, target path) up, and apply the policy — reuse the match (resuming
    /// a paused or failed one), reject the submission, surface the candidates,
    /// or admit a new task storing the canonical URL. Fails with `InvalidUrl`
    /// exactly when the URL does not parse, and with `PolicyViolation` when a
    /// duplicate is found under `FailIfDuplicate`.
    pub fn add_download_with_policy(
        &mut self,
        url: &str,
        target_path: &str,
        policy: DuplicatePolicy,
    ) -> (r: Result<(DuplicateResult, Vec<DownloadEvent>), DownloadError>)
        requires
            old(self).wf(),
        ensures
            final(self).wf(),
            final(self).capacity_spec() == old(self).capacity_spec(),
            final(self).progress_seq() == old(self).progress_seq(),
            transitions_respected(old(self).tasks_seq(), final(self).tasks_seq()),
            unique_identities(old(self).tasks_seq()) && !(policy is AllowDuplicate) && !(policy
                is ReuseIfComplete) ==> unique_identities(final(self).tasks_seq()),
            (r matches Err(e) && e is InvalidUrl) <==> !crate::url_normalization::url_parseable(
                url@,
            ),
            crate::url_normalization::url_parseable(url@) ==> gate_behavior(
                *old(self),
                *final(self),
                crate::url_normalization::canonical_text_of(url@),
                target_path@,
                policy,
                r,
            ),
            r matches Err(e) ==> (e is InvalidUrl || e is General || e matches
                DownloadError::PolicyViolation { .. }) && same_state(*final(self), *old(self)),
            r matches Err(e) ==> (e matches DownloadError::PolicyViolation { task_id: d, reason }
                ==> policy is FailIfDuplicate && reason@
                == "Duplicate found but policy forbids reuse"@ && has_task_id(
                old(self).tasks_seq(),
                d,
            )),
            r matches Ok(p) ==> events_match_state(p.1@, final(self).tasks_seq()),
    {
        let canonical = match crate::url_normalization::normalize_url(url) {
            Ok(c) => c,
            Err(e) => {
                return Err(e);
            },
        };
        let ghost canon_view = canonical@;
        proof {
            assert(canon_view == crate::url_normalization::canonical_text_of(url@));
        }
        let result = self.add_canonical_with_policy(canonical, target_path, policy);
        proof {
            match &result {
                Err(DownloadError::PolicyViolation { task_id: d, .. }) => {
                    assert(some_match(old(self).tasks_seq(), canon_view, target_path@));
                    lemma_gate_match_exists(old(self).tasks_seq(), canon_view, target_path@);
                    let m = choose|m: int|
                        is_gate_match(old(self).tasks_seq(), canon_view, target_path@, m);
                    assert(old(self).tasks_seq()[m].id == *d);
                    assert(has_task_id(old(self).tasks_seq(), *d)) by {
                        assert(0 <= m < old(self).tasks_seq().len() && old(
                            self,
                        ).tasks_seq()[m].id == *d);
                    }
                },
                _ => {},
            }
        }
        result
    }

    /// Remove the first occurrence of the given identifier from a list.
    fn remove_id(v: &mut Vec<TaskId>, id: TaskId)
        ensures
            final(v)@ == remove_first_id(old(v)@, id),
    {
        proof {
            lemma_remove_first_id(v@, id);
        }
        match Self::id_position(v, id) {
            Some(i) => {
                proof {
                    lemma_remove_first_id_at(v@, id, i as int);
                }
                v.remove(i);
            },
            None => {},
        }
    }
}

} // verus!


