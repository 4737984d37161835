//! The in-memory storage backend of the dashboard.
//!
//! Standalone executions keep evaluations and their measurements in
//! process memory instead of PostgreSQL. Times are microseconds since the
//! Unix epoch. The measured figures that are real numbers (throughput,
//! CPU usage) are stored as they come, of a type `M` chosen by the user
//! of the store; nothing here computes with them.

use vstd::prelude::*;

verus! {

/// A stored evaluation.
pub struct MemoryEvaluation {
    pub id: u128,
    pub crypto_mode: String,
    pub num_clients: i32,
    pub started_at: i64,
    pub finished_at: Option<i64>,
    pub status: String,
}

/// A stored TLS handshake measurement.
pub struct MemoryHandshake {
    pub handshake_id: u128,
    pub evaluation_id: u128,
    pub client_id: i32,
    pub handshake_duration_ms: Option<i64>,
    pub kx_group: Option<String>,
    pub cipher_suite: Option<String>,
    pub success: bool,
    pub created_at: i64,
}

/// A stored file transfer measurement.
pub struct MemoryTransfer<M> {
    pub execution_id: String,
    pub transfer_id: u128,
    pub evaluation_id: u128,
    pub client_id: i32,
    pub operation: String,
    pub file_size: i64,
    pub file_size_unit: String,
    pub num_files: i32,
    pub bytes_transferred: Option<i64>,
    pub duration_ms: Option<i64>,
    pub throughput_mbps: Option<M>,
    pub crypto_mode: Option<String>,
    pub kx_group: Option<String>,
    pub cipher_suite: Option<String>,
    pub success: Option<bool>,
    pub error_type: Option<String>,
    pub created_at: i64,
    pub finished_at: Option<i64>,
}

/// A stored resource measurement of one container.
pub struct MemoryResource<M> {
    pub resource_id: u128,
    pub evaluation_id: u128,
    pub role: String,
    pub client_id: Option<i32>,
    pub timestamp: i64,
    pub cpu_avg_percent: M,
    pub cpu_peak_percent: M,
    pub memory_peak_bytes: i64,
}

/// The in-memory store.
pub struct MemoryDatabase<M> {
    pub evaluations: Vec<MemoryEvaluation>,
    pub handshakes: Vec<MemoryHandshake>,
    pub transfers: Vec<MemoryTransfer<M>>,
    pub resources: Vec<MemoryResource<M>>,
}

/// The number of transfers of evaluation `e`.
pub open spec fn transfer_count<M>(transfers: Seq<MemoryTransfer<M>>, e: u128) -> nat
    decreases transfers.len(),
{
    if transfers.len() == 0 {
        0
    } else {
        transfer_count(transfers.drop_last(), e) + if transfers.last().evaluation_id == e {
            1nat
        } else {
            0nat
        }
    }
}

/// The number of finished transfers of evaluation `e`.
pub open spec fn finished_count<M>(transfers: Seq<MemoryTransfer<M>>, e: u128) -> nat
    decreases transfers.len(),
{
    if transfers.len() == 0 {
        0
    } else {
        finished_count(transfers.drop_last(), e) + if transfers.last().evaluation_id == e
            && transfers.last().finished_at is Some {
            1nat
        } else {
            0nat
        }
    }
}

/// Whether transfer `t` belongs to evaluation `e` and finished at `at`.
pub open spec fn finished_transfer_of<M>(t: MemoryTransfer<M>, e: u128, at: i64) -> bool {
    t.evaluation_id == e && t.finished_at == Some(at)
}

/// The latest finish time of the transfers of evaluation `e`, none where
/// none of them finished.
pub open spec fn latest_finish<M>(transfers: Seq<MemoryTransfer<M>>, e: u128) -> Option<i64>
    decreases transfers.len(),
{
    if transfers.len() == 0 {
        None
    } else {
        let rest = latest_finish(transfers.drop_last(), e);
        let t = transfers.last();
        if t.evaluation_id == e && t.finished_at is Some {
            match rest {
                None => t.finished_at,
                Some(m) => if t.finished_at->0 >= m {
                    t.finished_at
                } else {
                    rest
                },
            }
        } else {
            rest
        }
    }
}

/// `r` is the latest finish time of the transfers of `e`: none where none
/// finished, else the finish time of one of them and no earlier than any.
pub open spec fn latest_finish_is_max<M>(
    transfers: Seq<MemoryTransfer<M>>,
    e: u128,
    r: Option<i64>,
) -> bool {
    match r {
        None => forall|i: int|
            0 <= i < transfers.len() ==> !(#[trigger] transfers[i].evaluation_id == e
                && transfers[i].finished_at is Some),
        Some(at) => {
            &&& exists|i: int|
                0 <= i < transfers.len() && finished_transfer_of(#[trigger] transfers[i], e, at)
            &&& forall|i: int|
                0 <= i < transfers.len() && #[trigger] transfers[i].evaluation_id == e
                    && transfers[i].finished_at is Some ==> transfers[i].finished_at->0 <= at
        },
    }
}

/// The latest finish time is the maximum of the finish times.
pub proof fn lemma_latest_finish_is_max<M>(transfers: Seq<MemoryTransfer<M>>, e: u128)
    ensures
        latest_finish_is_max(transfers, e, latest_finish(transfers, e)),
    decreases transfers.len(),
{
    if transfers.len() > 0 {
        let init = transfers.drop_last();
        lemma_latest_finish_is_max(init, e);
        let n = transfers.len() - 1;
        assert forall|i: int| 0 <= i < n implies #[trigger] transfers[i] == init[i] by {}
        let rest = latest_finish(init, e);
        let t = transfers.last();
        match latest_finish(transfers, e) {
            None => {
                assert forall|i: int| 0 <= i < transfers.len() implies !(
                #[trigger] transfers[i].evaluation_id == e && transfers[i].finished_at is Some) by {
                    if i < n {
                        assert(transfers[i] == init[i]);
                    }
                }
            },
            Some(at) => {
                if t.evaluation_id == e && t.finished_at == Some(at) {
                    assert(finished_transfer_of(transfers[n], e, at));
                } else {
                    let k = choose|k: int| 0 <= k < init.len() && finished_transfer_of(#[trigger] init[k], e, at);
                    assert(transfers[k] == init[k]);
                    assert(finished_transfer_of(transfers[k], e, at));
                }
                assert forall|i: int|
                    0 <= i < transfers.len() && #[trigger] transfers[i].evaluation_id == e
                        && transfers[i].finished_at is Some implies transfers[i].finished_at->0 <= at by {
                    if i < n {
                        assert(transfers[i] == init[i]);
                        assert(init[i].evaluation_id == e);
                    }
                }
            },
        }
    }
}

/// No more transfers of an evaluation finished than there are.
pub proof fn law_completed_at_most_total<M>(transfers: Seq<MemoryTransfer<M>>, e: u128)
    ensures
        finished_count(transfers, e) <= transfer_count(transfers, e),
    decreases transfers.len(),
{
    if transfers.len() > 0 {
        law_completed_at_most_total(transfers.drop_last(), e);
    }
}

/// All transfers of an evaluation are completed exactly when every one
/// of them finished.
pub proof fn law_all_completed<M>(transfers: Seq<MemoryTransfer<M>>, e: u128)
    ensures
        (finished_count(transfers, e) == transfer_count(transfers, e)) <==> (forall|i: int|
            0 <= i < transfers.len() && #[trigger] transfers[i].evaluation_id == e
                ==> transfers[i].finished_at is Some),
    decreases transfers.len(),
{
    if transfers.len() > 0 {
        let init = transfers.drop_last();
        law_all_completed(init, e);
        law_completed_at_most_total(init, e);
        assert forall|i: int| 0 <= i < init.len() implies #[trigger] init[i] == transfers[i] by {}
        if finished_count(transfers, e) == transfer_count(transfers, e) {
            assert forall|i: int|
                0 <= i < transfers.len() && #[trigger] transfers[i].evaluation_id == e
                    implies transfers[i].finished_at is Some by {
                if i < init.len() {
                    assert(init[i] == transfers[i]);
                    assert(init[i].evaluation_id == e);
                }
            }
        } else {
            let last = transfers.len() - 1;
            if transfers[last].evaluation_id == e && transfers[last].finished_at is None {
            } else {
                let k = choose|k: int|
                    !(0 <= k < init.len() && #[trigger] init[k].evaluation_id == e
                        ==> init[k].finished_at is Some);
                assert(transfers[k] == init[k]);
            }
        }
    }
}

/// The progress of the transfers of an evaluation.
#[derive(Clone, Copy, Debug, PartialEq, Eq, Structural)]
pub struct TransferProgress {
    pub total: i64,
    pub completed: i64,
}

impl<M> MemoryDatabase<M> {
    /// An empty store.
    pub fn new() -> (db: MemoryDatabase<M>)
        ensures
            db.evaluations@.len() == 0,
            db.handshakes@.len() == 0,
            db.transfers@.len() == 0,
            db.resources@.len() == 0,
    {
        MemoryDatabase {
            evaluations: Vec::new(),
            handshakes: Vec::new(),
            transfers: Vec::new(),
            resources: Vec::new(),
        }
    }

    /// Stores a new running evaluation.
    pub fn create_evaluation(
        &mut self,
        id: u128,
        crypto_mode: String,
        num_clients: i32,
        started_at: i64,
    )
        ensures
            final(self).evaluations@.len() == old(self).evaluations@.len() + 1,
            final(self).evaluations@.drop_last() == old(self).evaluations@,
            final(self).evaluations@.last().id == id,
            final(self).evaluations@.last().crypto_mode == crypto_mode,
            final(self).evaluations@.last().num_clients == num_clients,
            final(self).evaluations@.last().started_at == started_at,
            final(self).evaluations@.last().finished_at is None,
            final(self).evaluations@.last().status@ == "running"@,
            final(self).handshakes == old(self).handshakes,
            final(self).transfers == old(self).transfers,
            final(self).resources == old(self).resources,
    {
        let ghost before = self.evaluations@;
        self.evaluations.push(
            MemoryEvaluation {
                id,
                crypto_mode,
                num_clients,
                started_at,
                finished_at: None,
                status: String::from_str("running"),
            },
        );
        assert(self.evaluations@.drop_last() =~= before);
    }

    /// Stores a handshake measurement.
    pub fn save_handshake(&mut self, handshake: MemoryHandshake)
        ensures
            final(self).handshakes@ == old(self).handshakes@.push(handshake),
            final(self).evaluations == old(self).evaluations,
            final(self).transfers == old(self).transfers,
            final(self).resources == old(self).resources,
    {
        self.handshakes.push(handshake);
    }

    /// Stores a transfer measurement.
    pub fn save_transfer(&mut self, transfer: MemoryTransfer<M>)
        ensures
            final(self).transfers@ == old(self).transfers@.push(transfer),
            final(self).evaluations == old(self).evaluations,
            final(self).handshakes == old(self).handshakes,
            final(self).resources == old(self).resources,
    {
        self.transfers.push(transfer);
    }

    /// Stores a resource measurement.
    pub fn save_resource(&mut self, resource: MemoryResource<M>)
        ensures
            final(self).resources@ == old(self).resources@.push(resource),
            final(self).evaluations == old(self).evaluations,
            final(self).handshakes == old(self).handshakes,
            final(self).transfers == old(self).transfers,
    {
        self.resources.push(resource);
    }

    /// The latest time at which a transfer of evaluation `evaluation_id`
    /// finished, or none where none of them finished.
    pub fn last_transfer_finished_at(&self, evaluation_id: u128) -> (r: Option<i64>)
        ensures
            r == latest_finish(self.transfers@, evaluation_id),
            latest_finish_is_max(self.transfers@, evaluation_id, r),
    {
        let ghost ts = self.transfers@;
        let mut latest: Option<i64> = None;
        let mut i: usize = 0;
        while i < self.transfers.len()
            invariant
                i <= ts.len(),
                ts == self.transfers@,
                latest == latest_finish(ts.take(i as int), evaluation_id),
            decreases ts.len() - i,
        {
            assert(ts.take(i + 1).drop_last() =~= ts.take(i as int));
            let t = &self.transfers[i];
            if t.evaluation_id == evaluation_id {
                match t.finished_at {
                    Some(at) => {
                        match latest {
                            None => {
                                latest = Some(at);
                            },
                            Some(m) => {
                                if at >= m {
                                    latest = Some(at);
                                }
                            },
                        }
                    },
                    None => {},
                }
            }
            i = i + 1;
        }
        assert(ts.take(ts.len() as int) =~= ts);
        proof {
            lemma_latest_finish_is_max(ts, evaluation_id);
        }
        latest
    }

    /// Completes evaluation `id` with `status`: the first stored
    /// evaluation with that identifier takes the latest finish time of its
    /// transfers (none where none finished) and the status; nothing changes
    /// where no evaluation has that identifier.
    pub fn finish(&mut self, id: u128, status: String)
        ensures
            (forall|i: int|
                0 <= i < old(self).evaluations@.len() ==> #[trigger] old(self).evaluations@[i].id
                    != id) ==> final(self).evaluations == old(self).evaluations,
            forall|i: int|
                0 <= i < old(self).evaluations@.len() && #[trigger] old(self).evaluations@[i].id == id
                    && (forall|j: int| 0 <= j < i ==> old(self).evaluations@[j].id != id)
                    ==> final(self).evaluations@ == old(self).evaluations@.update(
                    i,
                    MemoryEvaluation {
                        finished_at: latest_finish(old(self).transfers@, id),
                        status,
                        ..old(self).evaluations@[i]
                    },
                ),
            final(self).handshakes == old(self).handshakes,
            final(self).transfers == old(self).transfers,
            final(self).resources == old(self).resources,
    {
        let finished_at = self.last_transfer_finished_at(id);
        let mut i: usize = 0;
        while i < self.evaluations.len()
            invariant
                i <= self.evaluations@.len(),
                forall|j: int| 0 <= j < i ==> #[trigger] self.evaluations@[j].id != id,
            ensures
                i <= self.evaluations@.len(),
                forall|j: int| 0 <= j < i ==> #[trigger] self.evaluations@[j].id != id,
                i < self.evaluations@.len() ==> self.evaluations@[i as int].id == id,
            decreases self.evaluations.len() - i,
        {
            if self.evaluations[i].id == id {
                break;
            }
            i = i + 1;
        }
        if i < self.evaluations.len() {
            let ghost before = self.evaluations@;
            assert(before[i as int].id == id);
            let mut evaluations: Vec<MemoryEvaluation> = Vec::new();
            std::mem::swap(&mut evaluations, &mut self.evaluations);
            let old_entry = evaluations.remove(i);
            evaluations.insert(
                i,
                MemoryEvaluation {
                    id: old_entry.id,
                    crypto_mode: old_entry.crypto_mode,
                    num_clients: old_entry.num_clients,
                    started_at: old_entry.started_at,
                    finished_at,
                    status,
                },
            );
            assert(evaluations@ =~= before.update(
                i as int,
                MemoryEvaluation { finished_at, status, ..before[i as int] },
            ));
            self.evaluations = evaluations;
            assert forall|k: int|
                0 <= k < before.len() && #[trigger] before[k].id == id && (forall|j: int|
                    0 <= j < k ==> before[j].id != id) implies k == i by {
                if k < i {
                    assert(before[k].id != id);
                }
                if k > i {
                    assert(before[i as int].id != id);
                }
            }
        }
    }

    /// The number of transfers of evaluation `evaluation_id`, and of
    /// those that finished.
    pub fn transfer_progress(&self, evaluation_id: u128) -> (p: TransferProgress)
        requires
            self.transfers@.len() <= i64::MAX,
        ensures
            p.total == transfer_count(self.transfers@, evaluation_id),
            p.completed == finished_count(self.transfers@, evaluation_id),
    {
        let ghost ts = self.transfers@;
        let mut total: i64 = 0;
        let mut completed: i64 = 0;
        let mut i: usize = 0;
        while i < self.transfers.len()
            invariant
                i <= ts.len(),
                ts == self.transfers@,
                ts.len() <= i64::MAX,
                total == transfer_count(ts.take(i as int), evaluation_id),
                completed == finished_count(ts.take(i as int), evaluation_id),
                total <= i,
                completed <= i,
            decreases ts.len() - i,
        {
            assert(ts.take(i + 1).drop_last() =~= ts.take(i as int));
            if self.transfers[i].evaluation_id == evaluation_id {
                total = total + 1;
                if self.transfers[i].finished_at.is_some() {
                    completed = completed + 1;
                }
            }
            i = i + 1;
        }
        assert(ts.take(ts.len() as int) =~= ts);
        TransferProgress { total, completed }
    }
}

/// A transfer measurement reported by an application client.
pub struct TransferReport<M> {
    pub event_type: String,
    pub execution_id: String,
    pub transfer_id: u128,
    pub evaluation_id: u128,
    pub client_id: i32,
    pub operation: String,
    pub file_size: i64,
    pub file_size_unit: String,
    pub num_files: i32,
    pub bytes_transferred: Option<i64>,
    pub duration_ms: Option<i64>,
    pub throughput_mbps: Option<M>,
    pub crypto_mode: Option<String>,
    pub kx_group: Option<String>,
    pub cipher_suite: Option<String>,
    pub success: bool,
    pub error_type: Option<String>,
}

/// What dashboard clients are told of a reported transfer: the report
/// and the progress of the evaluation's transfers.
pub struct TransferNotification {
    pub event_type: String,
    pub evaluation_id: u128,
    pub execution_id: String,
    pub client_id: i32,
    pub operation: String,
    pub success: bool,
    pub completed: i64,
    pub total: i64,
    pub all_completed: bool,
}

/// The notification of a transfer report, given the progress of its
/// evaluation: all transfers are completed when there is at least one
/// and every one finished.
pub fn transfer_notification(
    event_type: String,
    evaluation_id: u128,
    execution_id: String,
    client_id: i32,
    operation: String,
    success: bool,
    progress: TransferProgress,
) -> (n: TransferNotification)
    ensures
        n == (TransferNotification {
            event_type,
            evaluation_id,
            execution_id,
            client_id,
            operation,
            success,
            completed: progress.completed,
            total: progress.total,
            all_completed: progress.total > 0 && progress.completed == progress.total,
        }),
{
    TransferNotification {
        event_type,
        evaluation_id,
        execution_id,
        client_id,
        operation,
        success,
        completed: progress.completed,
        total: progress.total,
        all_completed: progress.total > 0 && progress.completed == progress.total,
    }
}

/// The stored form of a transfer report received at `now`: a successful
/// transfer is finished at that time, a failed one is not finished.
pub open spec fn stored_transfer<M>(report: TransferReport<M>, now: i64) -> MemoryTransfer<M> {
    MemoryTransfer {
        execution_id: report.execution_id,
        transfer_id: report.transfer_id,
        evaluation_id: report.evaluation_id,
        client_id: report.client_id,
        operation: report.operation,
        file_size: report.file_size,
        file_size_unit: report.file_size_unit,
        num_files: report.num_files,
        bytes_transferred: report.bytes_transferred,
        duration_ms: report.duration_ms,
        throughput_mbps: report.throughput_mbps,
        crypto_mode: report.crypto_mode,
        kx_group: report.kx_group,
        cipher_suite: report.cipher_suite,
        success: Some(report.success),
        error_type: report.error_type,
        created_at: now,
        finished_at: if report.success {
            Some(now)
        } else {
            None
        },
    }
}

impl<M> MemoryDatabase<M> {
    /// Stores a transfer report received at `now` and returns what
    /// dashboard clients are told of it, with the progress of its
    /// evaluation counted after it was stored.
    pub fn record_transfer(&mut self, report: TransferReport<M>, now: i64) -> (n:
        TransferNotification)
        requires
            old(self).transfers@.len() < i64::MAX,
        ensures
            final(self).transfers@ == old(self).transfers@.push(stored_transfer(report, now)),
            final(self).evaluations == old(self).evaluations,
            final(self).handshakes == old(self).handshakes,
            final(self).resources == old(self).resources,
            n == (TransferNotification {
                event_type: report.event_type,
                evaluation_id: report.evaluation_id,
                execution_id: report.execution_id,
                client_id: report.client_id,
                operation: report.operation,
                success: report.success,
                completed: finished_count(final(self).transfers@, report.evaluation_id) as i64,
                total: transfer_count(final(self).transfers@, report.evaluation_id) as i64,
                all_completed: transfer_count(final(self).transfers@, report.evaluation_id) > 0
                    && finished_count(final(self).transfers@, report.evaluation_id)
                    == transfer_count(final(self).transfers@, report.evaluation_id),
            }),
    {
        let ghost r = report;
        let TransferReport {
            event_type,
            execution_id,
            transfer_id,
            evaluation_id,
            client_id,
            operation,
            file_size,
            file_size_unit,
            num_files,
            bytes_transferred,
            duration_ms,
            throughput_mbps,
            crypto_mode,
            kx_group,
            cipher_suite,
            success,
            error_type,
        } = report;
        let notified_execution = execution_id.clone();
        let notified_operation = operation.clone();
        let finished_at = if success {
            Some(now)
        } else {
            None
        };
        self.save_transfer(
            MemoryTransfer {
                execution_id,
                transfer_id,
                evaluation_id,
                client_id,
                operation,
                file_size,
                file_size_unit,
                num_files,
                bytes_transferred,
                duration_ms,
                throughput_mbps,
                crypto_mode,
                kx_group,
                cipher_suite,
                success: Some(success),
                error_type,
                created_at: now,
                finished_at,
            },
        );
        let progress = self.transfer_progress(evaluation_id);
        transfer_notification(
            event_type,
            evaluation_id,
            notified_execution,
            client_id,
            notified_operation,
            success,
            progress,
        )
    }
}

} // verus!
