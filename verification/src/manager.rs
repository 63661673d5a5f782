//! A self-contained download manager that simulates transfers, for
//! demonstration and testing: tasks start immediately and progress at a fixed
//! simulated speed until they complete.

use vstd::prelude::*;
use crate::duplicate_policy::DuplicatePolicy;
use crate::duplicate_reason::DuplicateReason;
use crate::duplicate_result::DuplicateResult;
use crate::error::DownloadError;
use crate::progress::DownloadProgress;
use crate::queue::{
    collect_matching_ids, find_matching_task, has_progress, has_task_id, ids_distinct,
    is_first_match, lemma_remove_task_facts, lemma_status_update_facts, lemma_task_index_unique,
    matches_request, matching_ids, progress_of, some_match, task_by_id, task_index,
    tasks_status_updated,
};
use crate::status::DownloadStatus;
use crate::task::{now_millis, DownloadTask, TaskId};
use crate::task_status::TaskStatus;

verus! {

/// Simulated size of every mock download: 10 MiB.
pub const MOCK_TOTAL_BYTES: u64 = 10485760;

/// Simulated speed of every mock download: 1 MiB/s.
pub const MOCK_SPEED_BPS: u64 = 1048576;

/// Parameters of one simulated transfer.
struct MockDownloadData {
    /// When the simulation started, milliseconds since the Unix epoch.
    start_millis: u64,
    /// Simulated file size in bytes.
    total_size: u64,
    /// Simulated speed in bytes per second.
    download_speed: u64,
}

/// The bytes a simulated transfer has moved by `now`: elapsed whole seconds
/// times the speed, never more than the total.
pub open spec fn spec_mock_downloaded(start: u64, total: u64, speed: u64, now: u64) -> int {
    let elapsed = if now >= start {
        ((now - start) / 1000) as int
    } else {
        0
    };
    if elapsed * speed <= total {
        elapsed * speed
    } else {
        total as int
    }
}

/// The full snapshot of a simulated transfer at a clock reading.
pub open spec fn spec_mock_snapshot(start: u64, total: u64, speed: u64, now: u64) -> DownloadProgress {
    let d = spec_mock_downloaded(start, total, speed, now);
    DownloadProgress {
        downloaded_bytes: d as u64,
        total_bytes: Some(total),
        speed_bps: speed,
        eta_seconds: if d < total && speed > 0 {
            Some((((total - d) / (speed as int)) as u64))
        } else {
            None
        },
    }
}

/// The progress snapshot of a simulated transfer at a given clock reading:
/// the downloaded bytes never exceed the total, the total and speed are
/// reported as configured, and the estimate counts the remaining bytes at the
/// configured speed, absent once done or when the speed is zero.
pub fn mock_progress_at(start_millis: u64, total_size: u64, download_speed: u64, now: u64) -> (r:
    DownloadProgress)
    ensures
        r == spec_mock_snapshot(start_millis, total_size, download_speed, now),
        r.downloaded_bytes == spec_mock_downloaded(start_millis, total_size, download_speed, now),
        r.downloaded_bytes <= total_size,
        r.total_bytes == Some(total_size),
        r.speed_bps == download_speed,
        r.eta_seconds == (if r.downloaded_bytes < total_size && download_speed > 0 {
            Some((((total_size - r.downloaded_bytes) as u64) / download_speed) as u64)
        } else {
            None::<u64>
        }),
{
    let elapsed_secs: u64 = if now >= start_millis {
        (now - start_millis) / 1000
    } else {
        0
    };
    proof {
        let e = elapsed_secs as int;
        let s = download_speed as int;
        assert(e * s <= 0xffffffffffffffff * 0xffffffffffffffff) by (nonlinear_arith)
            requires
                0 <= e <= 0xffffffffffffffff,
                0 <= s <= 0xffffffffffffffff,
        ;
    }
    let product: u128 = (elapsed_secs as u128) * (download_speed as u128);
    let downloaded: u64 = if product >= total_size as u128 {
        total_size
    } else {
        product as u64
    };
    proof {
        assert(downloaded == spec_mock_downloaded(start_millis, total_size, download_speed, now));
    }
    let eta_seconds: Option<u64> = if downloaded < total_size && download_speed > 0 {
        Some((total_size - downloaded) / download_speed)
    } else {
        None
    };
    DownloadProgress {
        downloaded_bytes: downloaded,
        total_bytes: Some(total_size),
        speed_bps: download_speed,
        eta_seconds,
    }
}

/// The number of tasks now downloading.
pub open spec fn count_active(tasks: Seq<DownloadTask>) -> int
    decreases tasks.len(),
{
    if tasks.len() == 0 {
        0
    } else {
        count_active(tasks.drop_last()) + if tasks.last().status is Downloading {
            1int
        } else {
            0int
        }
    }
}

/// A download manager that simulates every transfer it is handed.
pub struct BasicDownloadManager {
    /// Every known task, with distinct identifiers.
    tasks: Vec<DownloadTask>,
    /// Progress snapshots by task identifier.
    progress_entries: Vec<(TaskId, DownloadProgress)>,
    /// The running simulations by task identifier.
    mock_entries: Vec<(TaskId, MockDownloadData)>,
}

impl BasicDownloadManager {
    /// The registry: every known task.
    pub closed spec fn tasks_seq(&self) -> Seq<DownloadTask> {
        self.tasks@
    }

    /// The stored progress snapshots.
    pub closed spec fn progress_seq(&self) -> Seq<(TaskId, DownloadProgress)> {
        self.progress_entries@
    }

    /// The running simulations are keyed by distinct, registered identifiers.
    pub closed spec fn mocks_wf(&self) -> bool {
        &&& forall|i: int, j: int|
            0 <= i < j < self.mock_entries@.len() ==> (#[trigger] self.mock_entries@[i]).0 != (
            #[trigger] self.mock_entries@[j]).0
        &&& forall|i: int|
            0 <= i < self.mock_entries@.len() ==> has_task_id(
                self.tasks@,
                (#[trigger] self.mock_entries@[i]).0,
            )
    }

    /// Well-formedness: distinct task identifiers; distinct progress keys,
    /// each registered; every stored snapshot respects its total (downloaded
    /// bytes never exceed a known total); simulations well keyed.
    pub open spec fn wf(&self) -> bool {
        &&& ids_distinct(self.tasks_seq())
        &&& forall|i: int, j: int|
            0 <= i < j < self.progress_seq().len() ==> (#[trigger] self.progress_seq()[i]).0 != (
            #[trigger] self.progress_seq()[j]).0
        &&& forall|i: int|
            0 <= i < self.progress_seq().len() ==> has_task_id(
                self.tasks_seq(),
                (#[trigger] self.progress_seq()[i]).0,
            )
        &&& forall|i: int|
            0 <= i < self.progress_seq().len() ==> ((#[trigger] self.progress_seq()[i]).1.total_bytes
                matches Some(t) ==> self.progress_seq()[i].1.downloaded_bytes <= t)
        &&& self.mocks_wf()
    }

    /// A fresh manager with nothing registered.
    pub fn new() -> (r: Self)
        ensures
            r.wf(),
            r.tasks_seq().len() == 0,
            r.progress_seq().len() == 0,
    {
        BasicDownloadManager {
            tasks: Vec::new(),
            progress_entries: Vec::new(),
            mock_entries: Vec::new(),
        }
    }
}

impl BasicDownloadManager {
    /// The first index of the task with the given identifier, if any.
    fn position_of_task(&self, id: TaskId) -> (r: Option<usize>)
        ensures
            match r {
                Some(i) => i < self.tasks@.len() && self.tasks@[i as int].id == id,
                None => !has_task_id(self.tasks@, id),
            },
    {
        let mut i: usize = 0;
        while i < self.tasks.len()
            invariant
                i <= self.tasks@.len(),
                forall|k: int| 0 <= k < i ==> (#[trigger] self.tasks@[k]).id != id,
            decreases self.tasks@.len() - i,
        {
            if self.tasks[i].id.0 == id.0 {
                return Some(i);
            }
            i += 1;
        }
        None
    }

    /// The index of the simulation entry for the identifier, if any.
    fn mock_position(v: &Vec<(TaskId, MockDownloadData)>, id: TaskId) -> (r: Option<usize>)
        ensures
            match r {
                Some(i) => i < v@.len() && v@[i as int].0 == id,
                None => forall|k: int| 0 <= k < v@.len() ==> (#[trigger] v@[k]).0 != id,
            },
    {
        let mut i: usize = 0;
        while i < v.len()
            invariant
                i <= v@.len(),
                forall|k: int| 0 <= k < i ==> (#[trigger] v@[k]).0 != id,
            decreases v@.len() - i,
        {
            if v[i].0.0 == id.0 {
                return Some(i);
            }
            i += 1;
        }
        None
    }

    /// The index of the progress entry for the identifier, if any.
    fn progress_position(v: &Vec<(TaskId, DownloadProgress)>, id: TaskId) -> (r: Option<usize>)
        ensures
            match r {
                Some(i) => i < v@.len() && v@[i as int].0 == id,
                None => !has_progress(v@, id),
            },
    {
        let mut i: usize = 0;
        while i < v.len()
            invariant
                i <= v@.len(),
                forall|k: int| 0 <= k < i ==> (#[trigger] v@[k]).0 != id,
            decreases v@.len() - i,
        {
            if v[i].0.0 == id.0 {
                return Some(i);
            }
            i += 1;
        }
        proof {
            if has_progress(v@, id) {
                let k = choose|k: int| 0 <= k < v@.len() && (#[trigger] v@[k]).0 == id;
                assert(v@[k].0 != id);
            }
        }
        None
    }

    /// Remove the simulation entry for the identifier, if any.
    fn remove_mock(v: &mut Vec<(TaskId, MockDownloadData)>, id: TaskId)
        requires
            forall|a: int, b: int|
                0 <= a < b < old(v)@.len() ==> (#[trigger] old(v)@[a]).0 != (
                #[trigger] old(v)@[b]).0,
        ensures
            forall|k: int| 0 <= k < final(v)@.len() ==> (#[trigger] final(v)@[k]).0 != id,
            forall|k: int| 0 <= k < final(v)@.len() ==> old(v)@.contains(#[trigger] final(v)@[k]),
            forall|a: int, b: int|
                0 <= a < b < final(v)@.len() ==> (#[trigger] final(v)@[a]).0 != (
                #[trigger] final(v)@[b]).0,
    {
        let ghost pre = v@;
        match Self::mock_position(v, id) {
            Some(i) => {
                v.remove(i);
                proof {
                    pre.remove_ensures(i as int);
                    assert forall|k: int|
                        0 <= k < v@.len() implies (#[trigger] v@[k]).0 != id && pre.contains(
                        v@[k],
                    ) by {
                        let k0 = if k < i {
                            k
                        } else {
                            k + 1
                        };
                        assert(v@[k] == pre[k0]);
                        assert(k0 != i);
                        if k0 < i {
                            assert(pre[k0].0 != pre[i as int].0);
                        } else {
                            assert(pre[i as int].0 != pre[k0].0);
                        }
                    }
                    assert forall|a: int, b: int|
                        0 <= a < b < v@.len() implies (#[trigger] v@[a]).0 != (
                    #[trigger] v@[b]).0 by {
                        let a0 = if a < i {
                            a
                        } else {
                            a + 1
                        };
                        let b0 = if b < i {
                            b
                        } else {
                            b + 1
                        };
                        assert(v@[a] == pre[a0] && v@[b] == pre[b0]);
                    }
                }
            },
            None => {
                proof {
                    assert(forall|k: int|
                        0 <= k < v@.len() ==> pre.contains(#[trigger] v@[k]) && v@[k].0 != id);
                }
            },
        }
    }
}

impl BasicDownloadManager {
    /// Set the status of the task at a known index, leaving everything else.
    fn set_task_status(&mut self, i: usize, status: DownloadStatus)
        requires
            i < old(self).tasks@.len(),
            ids_distinct(old(self).tasks@),
        ensures
            tasks_status_updated(
                old(self).tasks@,
                final(self).tasks@,
                old(self).tasks@[i as int].id,
                status,
            ),
            final(self).tasks@.len() == old(self).tasks@.len(),
            final(self).tasks@[i as int].status == status,
            final(self).tasks@[i as int].id == old(self).tasks@[i as int].id,
            forall|k: int|
                0 <= k < old(self).tasks@.len() && k != i ==> final(self).tasks@[k] == old(self).tasks@[k],
            final(self).progress_entries@ == old(self).progress_entries@,
            final(self).mock_entries@ == old(self).mock_entries@,
    {
        let ghost pre = self.tasks@;
        let mut t = self.tasks.remove(i);
        t.update_status(status);
        self.tasks.insert(i, t);
        proof {
            pre.remove_ensures(i as int);
            pre.remove(i as int).insert_ensures(i as int, self.tasks@[i as int]);
            assert forall|k: int|
                0 <= k < pre.len() && k != i implies self.tasks@[k] == pre[k] by {
                if k < i {
                    assert(self.tasks@[k] == pre.remove(i as int)[k]);
                } else {
                    assert(self.tasks@[k] == pre.remove(i as int)[k - 1]);
                }
            }
            assert forall|k: int|
                0 <= k < pre.len() && (#[trigger] pre[k]).id == pre[i as int].id implies k
                == i by {
                if k < i {
                    assert(pre[k].id != pre[i as int].id);
                } else if k > i {
                    assert(pre[i as int].id != pre[k].id);
                }
            }
        }
    }

    /// Store a snapshot for a registered identifier, replacing any previous
    /// one; every other entry is kept.
    fn set_progress_entry(&mut self, task_id: TaskId, p: DownloadProgress)
        requires
            old(self).wf(),
            has_task_id(old(self).tasks@, task_id),
            p.total_bytes matches Some(t) ==> p.downloaded_bytes <= t,
        ensures
            final(self).tasks@ == old(self).tasks@,
            final(self).mock_entries@ == old(self).mock_entries@,
            final(self).wf(),
            has_progress(final(self).progress_seq(), task_id),
            progress_of(final(self).progress_seq(), task_id) == p,
            forall|x: TaskId|
                x != task_id ==> (has_progress(final(self).progress_seq(), x) <==> has_progress(
                    old(self).progress_seq(),
                    x,
                )),
            forall|x: TaskId|
                x != task_id && has_progress(old(self).progress_seq(), x) ==> progress_of(
                    final(self).progress_seq(),
                    x,
                ) == progress_of(old(self).progress_seq(), x),
    {
        let ghost pre_entries = self.progress_entries@;
        let pos = Self::progress_position(&self.progress_entries, task_id);
        let ghost j_spec: int = match pos {
            Some(j) => j as int,
            None => pre_entries.len() as int,
        };
        match pos {
            Some(j) => {
                let ghost pe = self.progress_entries@;
                self.progress_entries.remove(j);
                proof {
                    pe.remove_ensures(j as int);
                }
                self.progress_entries.insert(j, (task_id, p.clone()));
                proof {
                    pe.remove(j as int).insert_ensures(j as int, (task_id, p));
                    assert forall|k: int|
                        0 <= k < pe.len() && k != j implies self.progress_entries@[k]
                        == pe[k] by {
                        if k < j {
                            assert(self.progress_entries@[k] == pe.remove(j as int)[k]);
                        } else {
                            assert(self.progress_entries@[k] == pe.remove(j as int)[k - 1]);
                        }
                    }
                }
            },
            None => {
                self.progress_entries.push((task_id, p.clone()));
            },
        }
        proof {
            let post = self.progress_entries@;
            let j = j_spec;
            assert(post[j].0 == task_id && post[j].1 == p);
            assert(forall|k: int| 0 <= k < post.len() && k != j ==> post[k] == pre_entries[k]);
            assert forall|k: int|
                0 <= k < pre_entries.len() && k != j implies (#[trigger] pre_entries[k]).0
                != task_id by {
                if j < pre_entries.len() {
                    assert(pre_entries[j].0 == task_id);
                    if k < j {
                        assert(pre_entries[k].0 != pre_entries[j].0);
                    } else {
                        assert(pre_entries[j].0 != pre_entries[k].0);
                    }
                } else {
                    if pre_entries[k].0 == task_id {
                        assert(has_progress(pre_entries, task_id));
                    }
                }
            }
            assert forall|a: int, b: int|
                0 <= a < b < post.len() implies (#[trigger] post[a]).0 != (
            #[trigger] post[b]).0 by {
                if a != j && b != j {
                    assert(post[a] == pre_entries[a] && post[b] == pre_entries[b]);
                } else if a == j {
                    assert(post[b] == pre_entries[b]);
                } else {
                    assert(post[a] == pre_entries[a]);
                }
            }
            assert(has_progress(post, task_id)) by {
                assert(post[j].0 == task_id);
            }
            assert(progress_of(post, task_id) == p) by {
                let k = choose|k: int| 0 <= k < post.len() && (#[trigger] post[k]).0 == task_id;
                if k != j {
                    assert(post[k] == pre_entries[k]);
                }
            }
            assert forall|x: TaskId|
                x != task_id implies (has_progress(post, x) <==> has_progress(
                pre_entries,
                x,
            )) by {
                if has_progress(post, x) {
                    let k = choose|k: int| 0 <= k < post.len() && (#[trigger] post[k]).0 == x;
                    assert(k != j);
                    assert(post[k] == pre_entries[k]);
                }
                if has_progress(pre_entries, x) {
                    let k = choose|k: int|
                        0 <= k < pre_entries.len() && (#[trigger] pre_entries[k]).0 == x;
                    assert(k != j);
                    assert(post[k] == pre_entries[k]);
                }
            }
            assert forall|x: TaskId|
                x != task_id && has_progress(pre_entries, x) implies progress_of(post, x)
                    == progress_of(pre_entries, x) by {
                let k3 = choose|k3: int|
                    0 <= k3 < pre_entries.len() && (#[trigger] pre_entries[k3]).0 == x;
                assert(has_progress(post, x)) by {
                    assert(k3 != j);
                    assert(post[k3] == pre_entries[k3]);
                }
                let k2 = choose|k2: int| 0 <= k2 < post.len() && (#[trigger] post[k2]).0 == x;
                assert(k2 != j);
                assert(post[k2] == pre_entries[k2]);
                if k2 != k3 {
                    assert(pre_entries[k2].0 != pre_entries[k3].0);
                }
            }
        }
    }

    /// Begin a simulated download: the task is registered as `Downloading`
    /// under a fresh identifier, with an initial snapshot of the simulated
    /// size and speed. Fails only if the freshly drawn identifier collides
    /// with a registered one.
    /// Register a downloading task and start its simulation: the task is
    /// appended as handed in, with an initial snapshot of the simulated size
    /// and speed. Succeeds exactly when the task's identifier is not yet
    /// registered; otherwise the state is left untouched.
    pub fn admit_download(&mut self, task: DownloadTask) -> (r: Result<(), DownloadError>)
        requires
            old(self).wf(),
            task.status is Downloading,
        ensures
            final(self).wf(),
            r is Ok <==> !has_task_id(old(self).tasks_seq(), task.id),
            r is Ok ==> ({
                &&& final(self).tasks_seq().len() == old(self).tasks_seq().len() + 1
                &&& forall|k: int|
                    0 <= k < old(self).tasks_seq().len() ==> final(self).tasks_seq()[k] == old(self).tasks_seq()[k]
                &&& final(self).tasks_seq().last() == task
                &&& has_progress(final(self).progress_seq(), task.id)
                &&& progress_of(final(self).progress_seq(), task.id).downloaded_bytes == 0
                &&& progress_of(final(self).progress_seq(), task.id).total_bytes == Some(
                    MOCK_TOTAL_BYTES,
                )
                &&& progress_of(final(self).progress_seq(), task.id).speed_bps == MOCK_SPEED_BPS
                &&& forall|x: TaskId|
                    x != task.id ==> (has_progress(final(self).progress_seq(), x) <==> has_progress(
                        old(self).progress_seq(),
                        x,
                    ))
            }),
            r matches Err(e) ==> e is General && final(self).tasks_seq() == old(self).tasks_seq()
                && final(self).progress_seq() == old(self).progress_seq(),
    {
        let id = task.id;
        match self.position_of_task(id) {
            Some(i) => {
                proof {
                    assert(has_task_id(self.tasks@, id)) by {
                        assert(self.tasks@[i as int].id == id);
                    }
                }
                return Err(
                    DownloadError::General("task identifier already registered".to_owned()),
                );
            },
            None => {},
        }
        let ghost pre = *self;
        self.tasks.push(task);
        proof {
            assert(ids_distinct(self.tasks@)) by {
                assert forall|a: int, b: int|
                    0 <= a < b < self.tasks@.len() implies (#[trigger] self.tasks@[a]).id != (
                #[trigger] self.tasks@[b]).id by {
                    if b < pre.tasks@.len() {
                        assert(self.tasks@[a] == pre.tasks@[a]);
                        assert(self.tasks@[b] == pre.tasks@[b]);
                    } else {
                        assert(self.tasks@[b].id == id);
                        assert(self.tasks@[a] == pre.tasks@[a]);
                        assert(!has_task_id(pre.tasks@, id));
                    }
                }
            }
            assert forall|x: TaskId|
                has_task_id(pre.tasks@, x) implies has_task_id(self.tasks@, x) by {
                let k = choose|k: int|
                    0 <= k < pre.tasks@.len() && (#[trigger] pre.tasks@[k]).id == x;
                assert(self.tasks@[k].id == x);
            }
            assert(has_task_id(self.tasks@, id)) by {
                assert(self.tasks@[self.tasks@.len() - 1].id == id);
            }
        }
        self.mock_entries.push(
            (
                id,
                MockDownloadData {
                    start_millis: now_millis(),
                    total_size: MOCK_TOTAL_BYTES,
                    download_speed: MOCK_SPEED_BPS,
                },
            ),
        );
        proof {
            let ms = self.mock_entries@;
            assert forall|a: int, b: int|
                0 <= a < b < ms.len() implies (#[trigger] ms[a]).0 != (#[trigger] ms[b]).0 by {
                if b < pre.mock_entries@.len() {
                    assert(ms[a] == pre.mock_entries@[a] && ms[b] == pre.mock_entries@[b]);
                } else {
                    assert(ms[b].0 == id);
                    assert(ms[a] == pre.mock_entries@[a]);
                    assert(has_task_id(pre.tasks@, ms[a].0));
                }
            }
        }
        self.set_progress_entry(
            id,
            DownloadProgress {
                downloaded_bytes: 0,
                total_bytes: Some(MOCK_TOTAL_BYTES),
                speed_bps: MOCK_SPEED_BPS,
                eta_seconds: Some(10),
            },
        );
        Ok(())
    }

    /// Begin a simulated download: a fresh task for the request is admitted
    /// as `Downloading`, with an initial snapshot of the simulated size and
    /// speed. Fails only if the freshly drawn identifier collides with a
    /// registered one.
    pub fn add_download(&mut self, url: String, target_path: String) -> (r: Result<
        TaskId,
        DownloadError,
    >)
        requires
            old(self).wf(),
        ensures
            final(self).wf(),
            r matches Ok(id) ==> ({
                &&& !has_task_id(old(self).tasks_seq(), id)
                &&& final(self).tasks_seq().len() == old(self).tasks_seq().len() + 1
                &&& forall|k: int|
                    0 <= k < old(self).tasks_seq().len() ==> final(self).tasks_seq()[k] == old(self).tasks_seq()[k]
                &&& final(self).tasks_seq().last().id == id
                &&& final(self).tasks_seq().last().url == url
                &&& final(self).tasks_seq().last().target_path == target_path
                &&& final(self).tasks_seq().last().status is Downloading
                &&& has_progress(final(self).progress_seq(), id)
                &&& progress_of(final(self).progress_seq(), id).downloaded_bytes == 0
                &&& progress_of(final(self).progress_seq(), id).total_bytes == Some(
                    MOCK_TOTAL_BYTES,
                )
                &&& progress_of(final(self).progress_seq(), id).speed_bps == MOCK_SPEED_BPS
                &&& forall|x: TaskId|
                    x != id ==> (has_progress(final(self).progress_seq(), x) <==> has_progress(
                        old(self).progress_seq(),
                        x,
                    ))
            }),
            r matches Err(e) ==> e is General && final(self).tasks_seq() == old(self).tasks_seq()
                && final(self).progress_seq() == old(self).progress_seq(),
    {
        let mut task = DownloadTask::new(url, target_path);
        task.update_status(DownloadStatus::Downloading);
        let id = task.id;
        match self.admit_download(task) {
            Ok(()) => Ok(id),
            Err(e) => Err(e),
        }
    }

    /// Refresh the simulated progress of a task: store the snapshot at the
    /// current clock, and when the simulation reaches its total, mark the
    /// task completed and end the simulation. Tasks without a running
    /// simulation are left as they are. Never fails.
    fn update_task_progress(&mut self, task_id: TaskId) -> (r: Result<(), DownloadError>)
        requires
            old(self).wf(),
        ensures
            final(self).wf(),
            r is Ok,
            forall|x: TaskId|
                has_task_id(final(self).tasks_seq(), x) <==> has_task_id(
                    old(self).tasks_seq(),
                    x,
                ),
            forall|x: TaskId|
                x != task_id && has_task_id(old(self).tasks_seq(), x) ==> task_by_id(
                    final(self).tasks_seq(),
                    x,
                ) == task_by_id(old(self).tasks_seq(), x),
            has_task_id(old(self).tasks_seq(), task_id) ==> ({
                ||| task_by_id(final(self).tasks_seq(), task_id) == task_by_id(
                    old(self).tasks_seq(),
                    task_id,
                )
                ||| task_by_id(final(self).tasks_seq(), task_id).status is Completed
            }),
            forall|x: TaskId|
                x != task_id ==> (has_progress(final(self).progress_seq(), x) <==> has_progress(
                    old(self).progress_seq(),
                    x,
                )),
            forall|x: TaskId|
                x != task_id && has_progress(old(self).progress_seq(), x) ==> progress_of(
                    final(self).progress_seq(),
                    x,
                ) == progress_of(old(self).progress_seq(), x),
            (forall|k: int|
                0 <= k < old(self).mock_entries@.len() ==> (#[trigger] old(self).mock_entries@[k]).0 != task_id) ==> final(self).tasks@ == old(self).tasks@
                && final(self).progress_entries@ == old(self).progress_entries@ && final(self).mock_entries@ == old(self).mock_entries@,
            forall|k: int|
                0 <= k < old(self).mock_entries@.len() && (#[trigger] old(self).mock_entries@[k]).0 == task_id ==> ({
                    let started = old(self).mock_entries@[k].1;
                    &&& has_progress(final(self).progress_seq(), task_id)
                    &&& (exists|now: u64|
                        progress_of(final(self).progress_seq(), task_id) == spec_mock_snapshot(
                            started.start_millis,
                            started.total_size,
                            started.download_speed,
                            now,
                        ))
                    &&& progress_of(final(self).progress_seq(), task_id).total_bytes == Some(
                        started.total_size,
                    )
                    &&& progress_of(final(self).progress_seq(), task_id).speed_bps
                        == started.download_speed
                    &&& (progress_of(final(self).progress_seq(), task_id).downloaded_bytes
                        < started.total_size ==> final(self).tasks@ == old(self).tasks@)
                    &&& (progress_of(final(self).progress_seq(), task_id).downloaded_bytes
                        == started.total_size ==> task_by_id(
                        final(self).tasks_seq(),
                        task_id,
                    ).status is Completed && (forall|k2: int|
                        0 <= k2 < final(self).mock_entries@.len() ==> (#[trigger] final(self).mock_entries@[k2]).0 != task_id))
                }),
    {
        let mpos = match Self::mock_position(&self.mock_entries, task_id) {
            Some(m) => m,
            None => {
                return Ok(());
            },
        };
        let start = self.mock_entries[mpos].1.start_millis;
        let total = self.mock_entries[mpos].1.total_size;
        let speed = self.mock_entries[mpos].1.download_speed;
        let now = now_millis();
        let snapshot = mock_progress_at(start, total, speed, now);
        let done = snapshot.downloaded_bytes >= total;
        let ghost pre = *self;
        proof {
            assert(has_task_id(pre.tasks@, task_id)) by {
                assert(pre.mock_entries@[mpos as int].0 == task_id);
            }
            assert forall|k: int|
                0 <= k < pre.mock_entries@.len() && (#[trigger] pre.mock_entries@[k]).0
                    == task_id implies k == mpos by {
                if k < mpos as int {
                    assert(pre.mock_entries@[k].0 != pre.mock_entries@[mpos as int].0);
                } else if k > mpos as int {
                    assert(pre.mock_entries@[mpos as int].0 != pre.mock_entries@[k].0);
                }
            }
            assert(snapshot == spec_mock_snapshot(start, total, speed, now));
        }
        self.set_progress_entry(task_id, snapshot);
        if done {
            let ghost mid = *self;
            match self.position_of_task(task_id) {
                Some(i) => {
                    proof {
                        lemma_task_index_unique(mid.tasks@, i as int);
                    }
                    self.set_task_status(i, DownloadStatus::Completed);
                    proof {
                        lemma_status_update_facts(
                            mid.tasks@,
                            self.tasks@,
                            task_id,
                            DownloadStatus::Completed,
                        );
                    }
                },
                None => {
                    return vstd::pervasive::unreached();
                },
            }
            Self::remove_mock(&mut self.mock_entries, task_id);
            proof {
                assert forall|k: int|
                    0 <= k < self.mock_entries@.len() implies has_task_id(
                    self.tasks@,
                    (#[trigger] self.mock_entries@[k]).0,
                ) by {
                    assert(mid.mock_entries@.contains(self.mock_entries@[k]));
                    let m = choose|m: int|
                        0 <= m < mid.mock_entries@.len() && mid.mock_entries@[m]
                            == self.mock_entries@[k];
                    assert(has_task_id(mid.tasks@, self.mock_entries@[k].0));
                }
            }
        }
        Ok(())
    }
}

impl BasicDownloadManager {
    /// Pause a task that is downloading or waiting, ending its simulation.
    /// Fails with `TaskNotFound` for an unknown identifier and
    /// `InvalidStatusTransition` when the task cannot pause.
    pub fn pause_download(&mut self, task_id: TaskId) -> (r: Result<(), DownloadError>)
        requires
            old(self).wf(),
        ensures
            final(self).wf(),
            final(self).progress_seq() == old(self).progress_seq(),
            !has_task_id(old(self).tasks_seq(), task_id) <==> (r matches Err(e) && e matches
                DownloadError::TaskNotFound(i) && i == task_id),
            has_task_id(old(self).tasks_seq(), task_id) && !task_by_id(
                old(self).tasks_seq(),
                task_id,
            ).status.spec_can_pause() <==> (r matches Err(e) && e is InvalidStatusTransition),
            r is Ok <==> has_task_id(old(self).tasks_seq(), task_id) && task_by_id(
                old(self).tasks_seq(),
                task_id,
            ).status.spec_can_pause(),
            r is Err ==> final(self).tasks_seq() == old(self).tasks_seq(),
            r is Ok ==> tasks_status_updated(
                old(self).tasks_seq(),
                final(self).tasks_seq(),
                task_id,
                DownloadStatus::Paused,
            ),
    {
        let i = match self.position_of_task(task_id) {
            Some(i) => i,
            None => {
                return Err(DownloadError::TaskNotFound(task_id));
            },
        };
        proof {
            lemma_task_index_unique(old(self).tasks@, i as int);
        }
        if !self.tasks[i].status.can_pause() {
            return Err(DownloadError::InvalidStatusTransition);
        }
        let ghost pre = *self;
        self.set_task_status(i, DownloadStatus::Paused);
        proof {
            lemma_status_update_facts(pre.tasks@, self.tasks@, task_id, DownloadStatus::Paused);
        }
        Self::remove_mock(&mut self.mock_entries, task_id);
        proof {
            assert forall|k: int|
                0 <= k < self.mock_entries@.len() implies has_task_id(
                self.tasks@,
                (#[trigger] self.mock_entries@[k]).0,
            ) by {
                assert(pre.mock_entries@.contains(self.mock_entries@[k]));
                let m = choose|m: int|
                    0 <= m < pre.mock_entries@.len() && pre.mock_entries@[m]
                        == self.mock_entries@[k];
                assert(has_task_id(pre.tasks@, self.mock_entries@[k].0));
            }
        }
        Ok(())
    }

    /// Resume a paused or failed task: it downloads again and its simulation
    /// restarts from nothing, with a fresh initial snapshot. Fails with
    /// `TaskNotFound` for an unknown identifier and `InvalidStatusTransition`
    /// when the task cannot resume.
    pub fn resume_download(&mut self, task_id: TaskId) -> (r: Result<(), DownloadError>)
        requires
            old(self).wf(),
        ensures
            final(self).wf(),
            !has_task_id(old(self).tasks_seq(), task_id) <==> (r matches Err(e) && e matches
                DownloadError::TaskNotFound(i) && i == task_id),
            has_task_id(old(self).tasks_seq(), task_id) && !task_by_id(
                old(self).tasks_seq(),
                task_id,
            ).status.spec_can_resume() <==> (r matches Err(e) && e is InvalidStatusTransition),
            r is Ok <==> has_task_id(old(self).tasks_seq(), task_id) && task_by_id(
                old(self).tasks_seq(),
                task_id,
            ).status.spec_can_resume(),
            r is Err ==> final(self).tasks_seq() == old(self).tasks_seq()
                && final(self).progress_seq() == old(self).progress_seq(),
            r is Ok ==> tasks_status_updated(
                old(self).tasks_seq(),
                final(self).tasks_seq(),
                task_id,
                DownloadStatus::Downloading,
            ) && has_progress(final(self).progress_seq(), task_id) && progress_of(
                final(self).progress_seq(),
                task_id,
            ).downloaded_bytes == 0,
    {
        let i = match self.position_of_task(task_id) {
            Some(i) => i,
            None => {
                return Err(DownloadError::TaskNotFound(task_id));
            },
        };
        proof {
            lemma_task_index_unique(old(self).tasks@, i as int);
        }
        if !self.tasks[i].status.can_resume() {
            return Err(DownloadError::InvalidStatusTransition);
        }
        let ghost pre = *self;
        self.set_task_status(i, DownloadStatus::Downloading);
        proof {
            lemma_status_update_facts(
                pre.tasks@,
                self.tasks@,
                task_id,
                DownloadStatus::Downloading,
            );
        }
        Self::remove_mock(&mut self.mock_entries, task_id);
        proof {
            assert forall|k: int|
                0 <= k < self.mock_entries@.len() implies has_task_id(
                self.tasks@,
                (#[trigger] self.mock_entries@[k]).0,
            ) by {
                assert(pre.mock_entries@.contains(self.mock_entries@[k]));
                let m = choose|m: int|
                    0 <= m < pre.mock_entries@.len() && pre.mock_entries@[m]
                        == self.mock_entries@[k];
                assert(has_task_id(pre.tasks@, self.mock_entries@[k].0));
            }
        }
        let ghost mid = *self;
        self.mock_entries.push(
            (
                task_id,
                MockDownloadData {
                    start_millis: now_millis(),
                    total_size: MOCK_TOTAL_BYTES,
                    download_speed: MOCK_SPEED_BPS,
                },
            ),
        );
        proof {
            let ms = self.mock_entries@;
            assert forall|a: int, b: int|
                0 <= a < b < ms.len() implies (#[trigger] ms[a]).0 != (#[trigger] ms[b]).0 by {
                if b < mid.mock_entries@.len() {
                    assert(ms[a] == mid.mock_entries@[a] && ms[b] == mid.mock_entries@[b]);
                } else {
                    assert(ms[b].0 == task_id);
                    assert(ms[a] == mid.mock_entries@[a]);
                }
            }
            assert(has_task_id(self.tasks@, task_id));
        }
        self.set_progress_entry(
            task_id,
            DownloadProgress {
                downloaded_bytes: 0,
                total_bytes: Some(MOCK_TOTAL_BYTES),
                speed_bps: MOCK_SPEED_BPS,
                eta_seconds: Some(10),
            },
        );
        Ok(())
    }

    /// Cancel a task: its record, its snapshot and its simulation are all
    /// dropped. Cancelling an unknown identifier changes nothing; cancel
    /// never fails, so calling it again is a no-op.
    pub fn cancel_download(&mut self, task_id: TaskId) -> (r: Result<(), DownloadError>)
        requires
            old(self).wf(),
        ensures
            final(self).wf(),
            r is Ok,
            !has_task_id(final(self).tasks_seq(), task_id),
            !has_progress(final(self).progress_seq(), task_id),
            forall|x: TaskId|
                x != task_id ==> (has_task_id(final(self).tasks_seq(), x) <==> has_task_id(
                    old(self).tasks_seq(),
                    x,
                )),
            forall|x: TaskId|
                x != task_id && has_task_id(old(self).tasks_seq(), x) ==> task_by_id(
                    final(self).tasks_seq(),
                    x,
                ) == task_by_id(old(self).tasks_seq(), x),
            forall|x: TaskId|
                x != task_id ==> (has_progress(final(self).progress_seq(), x) <==> has_progress(
                    old(self).progress_seq(),
                    x,
                )),
            forall|x: TaskId|
                x != task_id && has_progress(old(self).progress_seq(), x) ==> progress_of(
                    final(self).progress_seq(),
                    x,
                ) == progress_of(old(self).progress_seq(), x),
            !has_task_id(old(self).tasks_seq(), task_id) ==> final(self).tasks_seq() == old(self).tasks_seq(),
    {
        let ghost pre = *self;
        match self.position_of_task(task_id) {
            Some(i) => {
                proof {
                    lemma_task_index_unique(pre.tasks@, i as int);
                }
                let _removed = self.tasks.remove(i);
                proof {
                    lemma_remove_task_facts(pre.tasks@, i as int);
                }
            },
            None => {},
        }
        Self::remove_progress(&mut self.progress_entries, task_id);
        Self::remove_mock(&mut self.mock_entries, task_id);
        proof {
            let post = *self;
            assert forall|k: int|
                0 <= k < post.mock_entries@.len() implies has_task_id(
                post.tasks@,
                (#[trigger] post.mock_entries@[k]).0,
            ) by {
                assert(pre.mock_entries@.contains(post.mock_entries@[k]));
                let m = choose|m: int|
                    0 <= m < pre.mock_entries@.len() && pre.mock_entries@[m]
                        == post.mock_entries@[k];
                assert(has_task_id(pre.tasks@, post.mock_entries@[k].0));
                assert(post.mock_entries@[k].0 != task_id);
            }
            assert forall|k: int|
                0 <= k < post.progress_entries@.len() implies has_task_id(
                post.tasks@,
                (#[trigger] post.progress_entries@[k]).0,
            ) && ((#[trigger] post.progress_entries@[k]).1.total_bytes matches Some(t)
                ==> post.progress_entries@[k].1.downloaded_bytes <= t) by {
                assert(pre.progress_entries@.contains(post.progress_entries@[k]));
                let m = choose|m: int|
                    0 <= m < pre.progress_entries@.len() && pre.progress_entries@[m]
                        == post.progress_entries@[k];
                assert(has_task_id(pre.tasks@, pre.progress_entries@[m].0));
                assert(post.progress_entries@[k].0 != task_id);
            }
            assert(!has_progress(post.progress_seq(), task_id)) by {
                if has_progress(post.progress_seq(), task_id) {
                    let k = choose|k: int|
                        0 <= k < post.progress_entries@.len() && (
                        #[trigger] post.progress_entries@[k]).0 == task_id;
                }
            }
        }
        Ok(())
    }

    /// Refresh and return the progress of a task. Fails with `TaskNotFound`
    /// when no snapshot is stored (the task is unknown or was cancelled).
    pub fn get_progress(&mut self, task_id: TaskId) -> (r: Result<DownloadProgress, DownloadError>)
        requires
            old(self).wf(),
        ensures
            final(self).wf(),
            r is Ok <==> has_progress(final(self).progress_seq(), task_id),
            r matches Ok(p) ==> has_progress(final(self).progress_seq(), task_id) && p
                == progress_of(final(self).progress_seq(), task_id) && (p.total_bytes matches Some(
                t,
            ) ==> p.downloaded_bytes <= t),
            r matches Err(e) ==> e matches DownloadError::TaskNotFound(i) && i == task_id
                && !has_progress(final(self).progress_seq(), task_id),
    {
        let _ = self.update_task_progress(task_id);
        match Self::progress_position(&self.progress_entries, task_id) {
            Some(j) => {
                proof {
                    let ps = self.progress_seq();
                    assert(has_progress(ps, task_id)) by {
                        assert(ps[j as int].0 == task_id);
                    }
                    let k = choose|k: int| 0 <= k < ps.len() && (#[trigger] ps[k]).0 == task_id;
                    if k < j {
                        assert((ps[k]).0 != (ps[j as int]).0);
                    } else if k > j {
                        assert((ps[j as int]).0 != (ps[k]).0);
                    }
                }
                Ok(self.progress_entries[j].1.clone())
            },
            None => Err(DownloadError::TaskNotFound(task_id)),
        }
    }

    /// Refresh a task's simulated progress and return the task. Fails with
    /// `TaskNotFound` for an unknown identifier.
    pub fn get_task(&mut self, task_id: TaskId) -> (r: Result<DownloadTask, DownloadError>)
        requires
            old(self).wf(),
        ensures
            final(self).wf(),
            r is Ok <==> has_task_id(final(self).tasks_seq(), task_id),
            !has_task_id(final(self).tasks_seq(), task_id) <==> (r matches Err(e) && e matches
                DownloadError::TaskNotFound(i) && i == task_id),
            r matches Ok(t) ==> t == task_by_id(final(self).tasks_seq(), task_id),
    {
        let _ = self.update_task_progress(task_id);
        match self.position_of_task(task_id) {
            Some(i) => {
                proof {
                    lemma_task_index_unique(self.tasks@, i as int);
                }
                Ok(self.tasks[i].clone())
            },
            None => Err(DownloadError::TaskNotFound(task_id)),
        }
    }

    /// Every known task, in registration order. Never fails.
    pub fn list_tasks(&self) -> (r: Result<Vec<DownloadTask>, DownloadError>)
        ensures
            r matches Ok(v) && v@ == self.tasks_seq(),
    {
        let mut out: Vec<DownloadTask> = Vec::new();
        let mut i: usize = 0;
        while i < self.tasks.len()
            invariant
                i <= self.tasks@.len(),
                out@.len() == i,
                forall|k: int| 0 <= k < i ==> out@[k] == self.tasks@[k],
            decreases self.tasks@.len() - i,
        {
            out.push(self.tasks[i].clone());
            i += 1;
        }
        proof {
            assert(out@ =~= self.tasks@);
        }
        Ok(out)
    }

    /// The number of tasks now downloading. Never fails.
    pub fn active_download_count(&self) -> (r: Result<usize, DownloadError>)
        ensures
            r matches Ok(c) && c == count_active(self.tasks_seq()),
    {
        let mut c: usize = 0;
        let mut i: usize = 0;
        proof {
            assert(self.tasks@.subrange(0, 0) =~= Seq::<DownloadTask>::empty());
        }
        while i < self.tasks.len()
            invariant
                i <= self.tasks@.len(),
                c <= i,
                c == count_active(self.tasks@.subrange(0, i as int)),
            decreases self.tasks@.len() - i,
        {
            let active = self.tasks[i].status.is_active();
            if active {
                c += 1;
            }
            proof {
                let cur = self.tasks@.subrange(0, i + 1);
                assert(cur.drop_last() =~= self.tasks@.subrange(0, i as int));
                assert(cur.last() == self.tasks@[i as int]);
            }
            i += 1;
        }
        proof {
            assert(self.tasks@.subrange(0, self.tasks@.len() as int) =~= self.tasks@);
        }
        Ok(c)
    }

    /// The first task matching the raw URL text and target path, if any.
    /// This manager compares requests textually; canonicalization lives in
    /// the queue manager's gate. Never fails.
    pub fn find_duplicate_task(&self, url: &str, target_path: &str) -> (r: Result<
        Option<TaskId>,
        DownloadError,
    >)
        ensures
            r matches Ok(o) && (match o {
                Some(id) => exists|i: int|
                    0 <= i < self.tasks_seq().len() && (#[trigger] self.tasks_seq()[i]).id == id
                        && is_first_match(self.tasks_seq(), url@, target_path@, i),
                None => !some_match(self.tasks_seq(), url@, target_path@),
            }),
    {
        let found = find_matching_task(&self.tasks, url, target_path);
        proof {
            assert(self.tasks_seq() == self.tasks@);
            match found {
                Some(id) => {
                    let i = choose|i: int|
                        0 <= i < self.tasks@.len() && (#[trigger] self.tasks@[i]).id == id
                            && is_first_match(self.tasks@, url@, target_path@, i);
                    assert(0 <= i < self.tasks_seq().len() && (#[trigger] self.tasks_seq()[i]).id
                        == id && is_first_match(self.tasks_seq(), url@, target_path@, i));
                },
                None => {},
            }
        }
        Ok(found)
    }

    /// Whether a task with the given identifier is registered.
    pub fn verify_task_validity(&self, task_id: &TaskId) -> (r: Result<bool, DownloadError>)
        ensures
            r matches Ok(b) && b == has_task_id(self.tasks_seq(), *task_id),
    {
        match self.position_of_task(*task_id) {
            Some(i) => {
                proof {
                    assert(has_task_id(self.tasks@, *task_id)) by {
                        assert(self.tasks@[i as int].id == *task_id);
                    }
                }
                Ok(true)
            },
            None => Ok(false),
        }
    }

    /// The identifiers of every task matching the raw URL text and target
    /// path, in registration order. Never fails.
    pub fn get_duplicate_candidates(&self, url: &str, target_path: &str) -> (r: Result<
        Vec<TaskId>,
        DownloadError,
    >)
        ensures
            r matches Ok(v) && v@ == matching_ids(self.tasks_seq(), url@, target_path@),
    {
        Ok(collect_matching_ids(&self.tasks, url, target_path))
    }

    /// Apply a duplicate policy to a request, matching raw URL text: reuse
    /// the first match when the policy allows, reject it under
    /// `FailIfDuplicate`, and otherwise start a new simulated download.
    pub fn add_download_with_policy(
        &mut self,
        url: &str,
        target_path: &str,
        policy: DuplicatePolicy,
    ) -> (r: Result<DuplicateResult, DownloadError>)
        requires
            old(self).wf(),
        ensures
            final(self).wf(),
            (some_match(old(self).tasks_seq(), url@, target_path@) && policy is FailIfDuplicate)
                <==> (r matches Err(e) && e matches DownloadError::PolicyViolation { .. }),
            r matches Err(e) ==> (e is General || e matches DownloadError::PolicyViolation {
                ..
            }) && final(self).tasks_seq() == old(self).tasks_seq(),
            forall|i: int|
                is_first_match(old(self).tasks_seq(), url@, target_path@, i) ==> ({
                    let t = old(self).tasks_seq()[i];
                    let ts = TaskStatus::spec_from_download_status(t.status);
                    &&& (policy.spec_allows_reuse(&ts) ==> (r matches Ok(res)
                        && res matches DuplicateResult::ExistingTask {
                            task_id,
                            status,
                            reason,
                        } && task_id == t.id && status == ts && reason is UrlAndPath
                        && final(self).tasks_seq() == old(self).tasks_seq()))
                    &&& (r matches Err(e) ==> (e matches DownloadError::PolicyViolation {
                        task_id: d,
                        reason: msg,
                    } ==> d == t.id && msg@ == "Duplicate found but policy forbids reuse"@))
                }),
            !some_match(old(self).tasks_seq(), url@, target_path@) && r is Ok ==> (r matches Ok(
                res,
            ) && res matches DuplicateResult::NewTask(id) && has_task_id(
                final(self).tasks_seq(),
                id,
            ) && !has_task_id(old(self).tasks_seq(), id)),
    {
        let found = find_matching_task(&self.tasks, url, target_path);
        match found {
            Some(existing) => {
                proof {
                    let i = choose|i: int|
                        0 <= i < self.tasks@.len() && (#[trigger] self.tasks@[i]).id == existing
                            && is_first_match(self.tasks@, url@, target_path@, i);
                    lemma_task_index_unique(self.tasks@, i);
                    assert forall|k: int|
                        is_first_match(self.tasks@, url@, target_path@, k) implies k == i by {
                        if k < i {
                            assert(!matches_request(self.tasks@[k], url@, target_path@));
                        } else if k > i {
                            assert(!matches_request(self.tasks@[i], url@, target_path@));
                        }
                    }
                }
                let i = match self.position_of_task(existing) {
                    Some(i) => i,
                    None => {
                        return vstd::pervasive::unreached();
                    },
                };
                proof {
                    lemma_task_index_unique(self.tasks@, i as int);
                }
                let ghost gi = choose|g: int|
                    0 <= g < self.tasks@.len() && (#[trigger] self.tasks@[g]).id == existing
                        && is_first_match(self.tasks@, url@, target_path@, g);
                proof {
                    assert(i as int == gi) by {
                        lemma_task_index_unique(self.tasks@, gi);
                    }
                }
                let ts = TaskStatus::from_download_status(self.tasks[i].status.clone());
                if policy.allows_reuse(&ts) {
                    let ts_again = TaskStatus::from_download_status(self.tasks[i].status.clone());
                    return Ok(
                        DuplicateResult::ExistingTask {
                            task_id: existing,
                            status: ts_again,
                            reason: DuplicateReason::UrlAndPath,
                        },
                    );
                } else if policy.should_fail_on_duplicate() {
                    return Err(
                        DownloadError::PolicyViolation {
                            task_id: existing,
                            reason: "Duplicate found but policy forbids reuse".to_owned(),
                        },
                    );
                }
            },
            None => {},
        }
        match self.add_download(url.to_owned(), target_path.to_owned()) {
            Ok(id) => {
                proof {
                    assert(has_task_id(self.tasks_seq(), id)) by {
                        assert(self.tasks_seq().last().id == id);
                        assert(self.tasks_seq()[self.tasks_seq().len() - 1].id == id);
                    }
                }
                Ok(DuplicateResult::NewTask(id))
            },
            Err(e) => Err(e),
        }
    }

    /// Remove the snapshot for the identifier, if any; every other snapshot
    /// is kept.
    fn remove_progress(v: &mut Vec<(TaskId, DownloadProgress)>, id: TaskId)
        requires
            forall|a: int, b: int|
                0 <= a < b < old(v)@.len() ==> (#[trigger] old(v)@[a]).0 != (
                #[trigger] old(v)@[b]).0,
        ensures
            forall|k: int| 0 <= k < final(v)@.len() ==> (#[trigger] final(v)@[k]).0 != id,
            forall|k: int| 0 <= k < final(v)@.len() ==> old(v)@.contains(#[trigger] final(v)@[k]),
            forall|a: int, b: int|
                0 <= a < b < final(v)@.len() ==> (#[trigger] final(v)@[a]).0 != (
                #[trigger] final(v)@[b]).0,
            forall|x: TaskId|
                x != id ==> (has_progress(final(v)@, x) <==> has_progress(old(v)@, x)),
            forall|x: TaskId|
                x != id && has_progress(old(v)@, x) ==> progress_of(final(v)@, x) == progress_of(
                    old(v)@,
                    x,
                ),
    {
        let ghost pre = v@;
        match Self::progress_position(v, id) {
            Some(j) => {
                v.remove(j);
                proof {
                    pre.remove_ensures(j as int);
                    assert forall|k: int|
                        0 <= k < v@.len() implies (#[trigger] v@[k]).0 != id && pre.contains(
                        v@[k],
                    ) by {
                        let k0 = if k < j {
                            k
                        } else {
                            k + 1
                        };
                        assert(v@[k] == pre[k0]);
                        assert(k0 != j);
                        if k0 < j {
                            assert(pre[k0].0 != pre[j as int].0);
                        } else {
                            assert(pre[j as int].0 != pre[k0].0);
                        }
                    }
                    assert forall|a: int, b: int|
                        0 <= a < b < v@.len() implies (#[trigger] v@[a]).0 != (
                    #[trigger] v@[b]).0 by {
                        let a0 = if a < j {
                            a
                        } else {
                            a + 1
                        };
                        let b0 = if b < j {
                            b
                        } else {
                            b + 1
                        };
                        assert(v@[a] == pre[a0] && v@[b] == pre[b0]);
                    }
                    assert forall|x: TaskId|
                        x != id implies (has_progress(v@, x) <==> has_progress(pre, x)) by {
                        if has_progress(v@, x) {
                            let k = choose|k: int|
                                0 <= k < v@.len() && (#[trigger] v@[k]).0 == x;
                            assert(pre.contains(v@[k]));
                            let m = choose|m: int| 0 <= m < pre.len() && pre[m] == v@[k];
                            assert(pre[m].0 == x);
                        }
                        if has_progress(pre, x) {
                            let k = choose|k: int|
                                0 <= k < pre.len() && (#[trigger] pre[k]).0 == x;
                            assert(k != j);
                            if k < j {
                                assert(v@[k] == pre[k]);
                            } else {
                                assert(v@[k - 1] == pre[k]);
                            }
                        }
                    }
                    assert forall|x: TaskId|
                        x != id && has_progress(pre, x) implies progress_of(v@, x)
                            == progress_of(pre, x) by {
                        let k3 = choose|k3: int|
                            0 <= k3 < pre.len() && (#[trigger] pre[k3]).0 == x;
                        assert(k3 != j);
                        assert(has_progress(v@, x));
                        let k2 = choose|k2: int| 0 <= k2 < v@.len() && (#[trigger] v@[k2]).0 == x;
                        assert(pre.contains(v@[k2]));
                        let m = choose|m: int| 0 <= m < pre.len() && pre[m] == v@[k2];
                        assert(pre[m].0 == x);
                        if m != k3 {
                            if m < k3 {
                                assert(pre[m].0 != pre[k3].0);
                            } else {
                                assert(pre[k3].0 != pre[m].0);
                            }
                        }
                    }
                }
            },
            None => {},
        }
    }
}

impl Default for BasicDownloadManager {
    /// The default manager has nothing registered.
    fn default() -> (r: Self)
        ensures
            r.wf(),
            r.tasks_seq().len() == 0,
            r.progress_seq().len() == 0,
    {
        BasicDownloadManager::new()
    }
}

} // verus!
