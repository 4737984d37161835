use secure_crypt::results::{organize_results, EvaluationRow, HandshakeRow, ResourceRow, TransferRow};
use secure_crypt::summaries::{
    checked_total, comparison_available, handshake_statistics, max_or_zero, sort_values, Median,
};

fn evaluation(id: u128, mode: &str, clients: i32, started_at: i64, operation: &str, size: i64) -> EvaluationRow {
    EvaluationRow {
        id,
        crypto_mode: mode.to_string(),
        num_clients: clients,
        started_at,
        finished_at: Some(started_at + 1000),
        status: "completed".to_string(),
        operation: operation.to_string(),
        file_size: size,
        file_size_unit: "MB".to_string(),
        num_files: 1,
    }
}

fn transfer(evaluation_id: u128, operation: &str, size: i64, group: &str, duration: i64) -> TransferRow {
    TransferRow {
        evaluation_id,
        operation: operation.to_string(),
        file_size: size,
        file_size_unit: "MB".to_string(),
        num_files: 1,
        kx_group: group.to_string(),
        duration_ms: duration,
        bytes_transferred: size * 1_048_576,
    }
}

#[test]
fn results_are_grouped_by_configuration_most_recent_first() {
    let evaluations = vec![
        evaluation(1, "classical", 2, 100, "upload", 10),
        evaluation(1, "classical", 2, 100, "download", 10),
        evaluation(2, "post_quantum", 2, 300, "upload", 10),
        evaluation(3, "classical", 2, 200, "download", 10),
    ];
    let handshakes = vec![
        HandshakeRow { evaluation_id: 2, kx_group: "X25519MLKEM768".to_string(), duration_ms: 9 },
        HandshakeRow { evaluation_id: 1, kx_group: "X25519".to_string(), duration_ms: 4 },
        HandshakeRow { evaluation_id: 1, kx_group: "X25519".to_string(), duration_ms: 6 },
    ];
    let transfers = vec![
        transfer(1, "upload", 10, "X25519", 70),
        transfer(2, "upload", 10, "X25519MLKEM768", 90),
        transfer(3, "download", 10, "X25519", 50),
        transfer(1, "download", 10, "X25519", 60),
    ];
    let resources = vec![
        ResourceRow { evaluation_id: 1, role: "server".to_string() },
        ResourceRow { evaluation_id: 2, role: "client".to_string() },
    ];

    let groups = organize_results(&evaluations, &handshakes, &transfers, &resources);
    assert_eq!(groups.len(), 2);

    let upload = &groups[0];
    assert_eq!(upload.operation, "upload");
    assert_eq!(upload.num_clients, 2);
    let ids: Vec<u128> = upload.evaluations.iter().map(|e| e.id).collect();
    assert_eq!(ids, vec![2, 1]);
    let hs: Vec<(&str, &str, Vec<i64>)> = upload
        .handshakes
        .iter()
        .map(|b| (b.crypto_mode.as_str(), b.kx_group.as_str(), b.durations.clone()))
        .collect();
    assert_eq!(
        hs,
        vec![("classical", "X25519", vec![4, 6]), ("post_quantum", "X25519MLKEM768", vec![9])]
    );
    let ts: Vec<(&str, &str, Vec<usize>)> = upload
        .transfers
        .iter()
        .map(|b| (b.crypto_mode.as_str(), b.label.as_str(), b.rows.clone()))
        .collect();
    assert_eq!(ts, vec![("classical", "X25519", vec![0]), ("post_quantum", "X25519MLKEM768", vec![1])]);
    let rs: Vec<(&str, &str, Vec<usize>)> = upload
        .resources
        .iter()
        .map(|b| (b.crypto_mode.as_str(), b.label.as_str(), b.rows.clone()))
        .collect();
    assert_eq!(rs, vec![("classical", "server", vec![0]), ("post_quantum", "client", vec![1])]);

    let download = &groups[1];
    assert_eq!(download.operation, "download");
    let ids: Vec<u128> = download.evaluations.iter().map(|e| e.id).collect();
    assert_eq!(ids, vec![3, 1]);
    let ts: Vec<Vec<usize>> = download.transfers.iter().map(|b| b.rows.clone()).collect();
    assert_eq!(ts, vec![vec![2, 3]]);
    assert_eq!(download.handshakes.len(), 1);
    assert_eq!(download.handshakes[0].durations, vec![4, 6]);
}

#[test]
fn no_rows_give_no_groups() {
    assert!(organize_results(&vec![], &vec![], &vec![], &vec![]).is_empty());
}

#[test]
fn handshake_statistics_of_odd_and_even_samples() {
    let stats = handshake_statistics(vec![9, 3, 5]);
    assert_eq!(stats.sorted, vec![3, 5, 9]);
    assert_eq!((stats.samples, stats.min_ms, stats.max_ms), (3, 3, 9));
    assert_eq!(stats.median, Median::Middle(5));

    let stats = handshake_statistics(vec![8, 2, 6, 4]);
    assert_eq!(stats.median, Median::Between(4, 6));
    assert_eq!((stats.min_ms, stats.max_ms), (2, 8));
}

#[test]
fn handshake_statistics_without_samples_are_zero() {
    let stats = handshake_statistics(vec![]);
    assert_eq!((stats.samples, stats.min_ms, stats.max_ms), (0, 0, 0));
    assert_eq!(stats.median, Median::Middle(0));
}

#[test]
fn sort_values_orders_with_duplicates() {
    assert_eq!(sort_values(vec![5, -1, 5, 0]), vec![-1, 0, 5, 5]);
}

#[test]
fn totals_and_maxima() {
    assert_eq!(checked_total(&vec![10, 20, 30]), Some(60));
    assert_eq!(checked_total(&vec![i64::MAX, 1]), None);
    assert_eq!(checked_total(&vec![]), Some(0));
    assert_eq!(max_or_zero(&vec![3, 11, 7]), 11);
    assert_eq!(max_or_zero(&vec![]), 0);
    assert_eq!(max_or_zero(&vec![-4, -2]), -2);
}

#[test]
fn comparison_needs_both_modes() {
    let groups = organize_results(
        &vec![
            evaluation(1, "classical", 1, 10, "upload", 1),
            evaluation(2, "post_quantum", 1, 20, "upload", 1),
            evaluation(3, "classical", 1, 30, "download", 1),
        ],
        &vec![],
        &vec![],
        &vec![],
    );
    let upload = groups.iter().find(|g| g.operation == "upload").unwrap();
    let download = groups.iter().find(|g| g.operation == "download").unwrap();
    assert!(comparison_available(&upload.evaluations));
    assert!(!comparison_available(&download.evaluations));
}

#[test]
fn handshake_statistics_ignore_order() {
    let a = handshake_statistics(vec![7, 1, 4, 4, 9, 2]);
    let b = handshake_statistics(vec![4, 9, 2, 7, 4, 1]);
    assert_eq!(a.sorted, b.sorted);
    assert_eq!((a.samples, a.min_ms, a.max_ms), (b.samples, b.min_ms, b.max_ms));
    assert_eq!(a.median, b.median);
    assert_eq!(a.median, Median::Between(4, 4));
    assert!(a.min_ms <= 1 && a.max_ms >= 9);
}
