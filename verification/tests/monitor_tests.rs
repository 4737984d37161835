use secure_crypt::evaluation::MonitoredContainer;
use secure_crypt::monitor::{cpu_usage, CpuUsage, ResourceAccumulator, ResourceTally};

fn container(name: &str, role: &str, client_id: Option<i32>) -> MonitoredContainer {
    MonitoredContainer { name: name.to_string(), role: role.to_string(), client_id }
}

#[test]
fn cpu_usage_uses_saturating_deltas() {
    assert_eq!(
        cpu_usage(Some(500), Some(200), Some(10_000), Some(4_000)),
        Some(CpuUsage::Busy { cpu_delta: 300, system_delta: 6_000 })
    );
    assert_eq!(
        cpu_usage(Some(100), Some(200), Some(10_000), Some(4_000)),
        Some(CpuUsage::Busy { cpu_delta: 0, system_delta: 6_000 })
    );
}

#[test]
fn cpu_usage_is_idle_when_system_time_stands_still() {
    assert_eq!(cpu_usage(Some(500), Some(200), Some(4_000), Some(4_000)), Some(CpuUsage::Idle));
    assert_eq!(cpu_usage(Some(500), Some(200), Some(3_000), Some(4_000)), Some(CpuUsage::Idle));
}

#[test]
fn cpu_usage_needs_all_counters() {
    assert_eq!(cpu_usage(None, Some(200), Some(4_000), Some(1)), None);
    assert_eq!(cpu_usage(Some(1), Some(200), None, Some(1)), None);
}

#[test]
fn accumulator_keeps_peak_and_count() {
    let mut acc = ResourceAccumulator::new("client".to_string(), Some(3));
    assert_eq!((acc.samples(), acc.memory_peak()), (0, 0));
    acc.add_sample(300);
    acc.add_sample(100);
    acc.add_sample(700);
    assert_eq!((acc.samples(), acc.memory_peak()), (3, 700));
    assert_eq!(acc.role(), "client");
    assert_eq!(acc.client_id(), Some(3));
}

#[test]
fn tally_has_one_entry_per_container() {
    let mut tally = ResourceTally::new();
    let server = container("securecrypt-server", "server", None);
    let client = container("securecrypt-client-1", "client", Some(1));
    assert_eq!(tally.record(&server, 100), 0);
    assert_eq!(tally.record(&client, 50), 1);
    assert_eq!(tally.record(&server, 400), 0);
    assert_eq!(tally.record(&server, 200), 0);
    assert_eq!(tally.len(), 2);
    assert_eq!(tally.accumulator(0).samples(), 3);
    assert_eq!(tally.accumulator(0).memory_peak(), 400);
    assert_eq!(tally.accumulator(1).samples(), 1);
    assert_eq!(tally.accumulator(1).client_id(), Some(1));
    assert_eq!(tally.measured(), vec![0, 1]);
}
