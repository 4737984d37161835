use secure_crypt::storage::{
    transfer_notification, MemoryDatabase, MemoryHandshake, MemoryResource, MemoryTransfer,
    TransferProgress, TransferReport,
};

fn report(evaluation_id: u128, success: bool) -> TransferReport<f64> {
    TransferReport {
        event_type: "transfer-finished".to_string(),
        execution_id: "exec-1".to_string(),
        transfer_id: 7,
        evaluation_id,
        client_id: 2,
        operation: "download".to_string(),
        file_size: 10,
        file_size_unit: "MB".to_string(),
        num_files: 1,
        bytes_transferred: Some(10_485_760),
        duration_ms: Some(250),
        throughput_mbps: Some(335.5),
        crypto_mode: Some("classical".to_string()),
        kx_group: Some("X25519".to_string()),
        cipher_suite: None,
        success,
        error_type: None,
    }
}

fn transfer(evaluation_id: u128, finished_at: Option<i64>) -> MemoryTransfer<f64> {
    MemoryTransfer {
        execution_id: "e".to_string(),
        transfer_id: 1,
        evaluation_id,
        client_id: 1,
        operation: "upload".to_string(),
        file_size: 1,
        file_size_unit: "KB".to_string(),
        num_files: 1,
        bytes_transferred: None,
        duration_ms: None,
        throughput_mbps: None,
        crypto_mode: None,
        kx_group: None,
        cipher_suite: None,
        success: Some(finished_at.is_some()),
        error_type: None,
        created_at: 0,
        finished_at,
    }
}

#[test]
fn recorded_transfers_report_progress() {
    let mut db: MemoryDatabase<f64> = MemoryDatabase::new();
    let first = db.record_transfer(report(1, true), 1_000);
    assert_eq!((first.completed, first.total, first.all_completed), (1, 1, true));
    assert_eq!(first.execution_id, "exec-1");
    assert_eq!(first.operation, "download");
    assert_eq!(first.client_id, 2);
    assert!(first.success);

    let second = db.record_transfer(report(1, false), 2_000);
    assert_eq!((second.completed, second.total, second.all_completed), (1, 2, false));

    let other = db.record_transfer(report(9, true), 3_000);
    assert_eq!((other.completed, other.total), (1, 1));

    assert_eq!(db.transfers.len(), 3);
    assert_eq!(db.transfers[0].finished_at, Some(1_000));
    assert_eq!(db.transfers[1].finished_at, None);
    assert_eq!(db.transfers[1].success, Some(false));
    assert_eq!(db.transfers[1].created_at, 2_000);
    assert_eq!(db.transfers[0].throughput_mbps, Some(335.5));
}

#[test]
fn progress_without_transfers_is_not_completed() {
    let db: MemoryDatabase<f64> = MemoryDatabase::new();
    assert_eq!(db.transfer_progress(5), TransferProgress { total: 0, completed: 0 });
    let n = transfer_notification(
        "transfer-started".to_string(),
        5,
        "x".to_string(),
        1,
        "upload".to_string(),
        true,
        TransferProgress { total: 0, completed: 0 },
    );
    assert!(!n.all_completed);
}

#[test]
fn last_finish_is_the_latest_of_the_evaluation() {
    let mut db: MemoryDatabase<f64> = MemoryDatabase::new();
    assert_eq!(db.last_transfer_finished_at(1), None);
    db.save_transfer(transfer(1, Some(50)));
    db.save_transfer(transfer(1, None));
    db.save_transfer(transfer(1, Some(90)));
    db.save_transfer(transfer(2, Some(500)));
    db.save_transfer(transfer(1, Some(70)));
    assert_eq!(db.last_transfer_finished_at(1), Some(90));
    assert_eq!(db.last_transfer_finished_at(2), Some(500));
    assert_eq!(db.last_transfer_finished_at(3), None);
}

#[test]
fn finish_sets_latest_transfer_time_and_status() {
    let mut db: MemoryDatabase<f64> = MemoryDatabase::new();
    db.create_evaluation(1, "classical".to_string(), 2, 10);
    db.create_evaluation(2, "post_quantum".to_string(), 1, 20);
    assert_eq!(db.evaluations[0].status, "running");
    assert_eq!(db.evaluations[0].finished_at, None);
    db.save_transfer(transfer(1, Some(40)));
    db.save_transfer(transfer(1, Some(30)));
    db.finish(1, "completed".to_string());
    assert_eq!(db.evaluations[0].finished_at, Some(40));
    assert_eq!(db.evaluations[0].status, "completed");
    assert_eq!(db.evaluations[1].status, "running");
    db.finish(2, "completed".to_string());
    assert_eq!(db.evaluations[1].finished_at, None);
    assert_eq!(db.evaluations[1].status, "completed");
    db.finish(3, "completed".to_string());
    assert_eq!(db.evaluations.len(), 2);
}

#[test]
fn handshakes_and_resources_are_appended() {
    let mut db: MemoryDatabase<f64> = MemoryDatabase::new();
    db.save_handshake(MemoryHandshake {
        handshake_id: 1,
        evaluation_id: 1,
        client_id: 1,
        handshake_duration_ms: Some(12),
        kx_group: Some("X25519".to_string()),
        cipher_suite: None,
        success: true,
        created_at: 5,
    });
    db.save_resource(MemoryResource {
        resource_id: 2,
        evaluation_id: 1,
        role: "server".to_string(),
        client_id: None,
        timestamp: 6,
        cpu_avg_percent: 12.5,
        cpu_peak_percent: 40.0,
        memory_peak_bytes: 1 << 20,
    });
    assert_eq!(db.handshakes.len(), 1);
    assert_eq!(db.resources.len(), 1);
    assert_eq!(db.resources[0].cpu_peak_percent, 40.0);
    assert!(db.transfers.is_empty());
}
