use secure_crypt::evaluation::{
    checked_client_total, client_count, evaluation_event, monitored_containers, ClientConfig,
    ClientFinished, CryptoMode, EvaluationSession, ServerConfig,
};
use secure_crypt::lifecycle::{
    application_launch, configuration_failed, retry_step, server_not_ready, CleanupStep, RetryStep,
    StartConclusion,
};

fn server_config(mode: &str) -> ServerConfig {
    ServerConfig {
        key_exchange: CryptoMode::new(mode.to_string()),
        cipher_suites: vec!["TLS13_AES_128_GCM_SHA256".to_string(), "TLS13_AES_256_GCM_SHA384".to_string()],
        kx_groups: vec!["X25519".to_string()],
    }
}

fn client_config(mode: &str, connections: u32) -> ClientConfig {
    ClientConfig {
        key_exchange: CryptoMode::new(mode.to_string()),
        cipher_suites: vec!["TLS13_AES_128_GCM_SHA256".to_string()],
        kx_groups: vec!["X25519".to_string(), "MLKEM768".to_string()],
        server_addr: "securecrypt-server:8443".to_string(),
        server_name: "localhost".to_string(),
        num_connections: connections,
    }
}

const EVALUATION: u128 = 0x0123_4567_89ab_cdef_0011_2233_4455_6677;

#[test]
fn crypto_mode_classical_is_created_correctly() {
    let mode = CryptoMode::new("classical".to_string());

    assert_eq!(mode.0, "classical");
    assert_eq!(mode.to_string(), "classical");
}

#[test]
fn crypto_mode_post_quantum_is_created_correctly() {
    let mode = CryptoMode::new("post_quantum".to_string());

    assert_eq!(mode.0, "post_quantum");
    assert_eq!(mode.to_string(), "post_quantum");
}

#[test]
fn new_session_has_nothing_configured() {
    let session = EvaluationSession::new();
    assert!(!session.is_evaluation_running());
    assert!(!session.application_status());
    assert!(!session.client_status());
    assert_eq!(session.current_evaluation(), None);
    assert_eq!(session.server_config().err().unwrap(), "Server configuration not found");
    assert_eq!(session.client_configs().err().unwrap(), "No client configuration found");
}

#[test]
fn saved_client_configuration_replaces_the_previous_one() {
    let mut session = EvaluationSession::new();
    assert!(session.save_client_config(client_config("classical", 2)));
    assert!(session.save_client_config(client_config("post_quantum", 5)));
    let configs = session.client_configs().unwrap();
    assert_eq!(configs.len(), 1);
    assert_eq!(configs[0].num_connections, 5);
    assert_eq!(configs[0].key_exchange.0, "post_quantum");
    assert!(session.client_status());
}

#[test]
fn configuration_cannot_change_while_running() {
    let mut session = EvaluationSession::new();
    assert!(session.save_server_config(server_config("classical")));
    assert!(session.save_client_config(client_config("classical", 1)));
    assert!(session.begin_evaluation().is_ok());
    assert!(!session.save_server_config(server_config("post_quantum")));
    assert!(!session.save_client_config(client_config("post_quantum", 9)));
    assert_eq!(session.server_config().unwrap().key_exchange.0, "classical");
    assert_eq!(session.client_configs().unwrap()[0].num_connections, 1);
}

#[test]
fn second_start_is_refused() {
    let mut session = EvaluationSession::new();
    assert!(session.begin_evaluation().is_ok());
    assert_eq!(session.begin_evaluation().err().unwrap(), "An evaluation is already running");
    assert!(session.is_evaluation_running());
}

#[test]
fn prepare_start_reports_missing_configuration() {
    let mut session = EvaluationSession::new();
    let error = session.prepare_start().err().unwrap();
    assert_eq!(error, "Server configuration not found");
    // The evaluation stays marked as running, as the dashboard leaves it.
    assert!(session.is_evaluation_running());
    assert_eq!(session.prepare_start().err().unwrap(), "An evaluation is already running");

    let mut session = EvaluationSession::new();
    session.save_server_config(server_config("classical"));
    assert_eq!(session.prepare_start().err().unwrap(), "No client configuration found");
}

#[test]
fn prepare_start_reads_the_configuration() {
    let mut session = EvaluationSession::new();
    session.save_server_config(server_config("post_quantum"));
    session.save_client_config(client_config("post_quantum", 3));
    let inputs = session.prepare_start().unwrap();
    assert_eq!(inputs.num_clients, 3);
    assert_eq!(inputs.server_config.key_exchange.0, "post_quantum");
    assert_eq!(inputs.client_configs.len(), 1);
    assert!(session.is_evaluation_running());
}

#[test]
fn client_totals_are_summed_in_i32() {
    let configs = vec![client_config("classical", 2), client_config("classical", 3)];
    assert_eq!(checked_client_total(&configs), Some(5));
    assert_eq!(client_count(&configs), 5);
    let overflowing = vec![client_config("classical", i32::MAX as u32), client_config("classical", 1)];
    assert_eq!(checked_client_total(&overflowing), None);
}

#[test]
fn client_finished_counts_each_client_once() {
    let mut session = EvaluationSession::new();
    session.save_client_config(client_config("classical", 2));
    session.set_evaluation(EVALUATION);

    match session.client_finished(EVALUATION, 1) {
        ClientFinished::Recorded { completed, expected, stop } => {
            assert_eq!((completed, expected, stop), (1, 2, false));
        }
        ClientFinished::Rejected => panic!("report of the current evaluation was rejected"),
    }
    match session.client_finished(EVALUATION, 1) {
        ClientFinished::Recorded { completed, expected, stop } => {
            assert_eq!((completed, expected, stop), (1, 2, false));
        }
        ClientFinished::Rejected => panic!("repeated report was rejected"),
    }
    match session.client_finished(EVALUATION, 2) {
        ClientFinished::Recorded { completed, expected, stop } => {
            assert_eq!((completed, expected, stop), (2, 2, true));
        }
        ClientFinished::Rejected => panic!("report of the current evaluation was rejected"),
    }
}

#[test]
fn client_finished_rejects_other_evaluations() {
    let mut session = EvaluationSession::new();
    session.save_client_config(client_config("classical", 2));
    assert!(matches!(session.client_finished(EVALUATION, 1), ClientFinished::Rejected));
    session.set_evaluation(EVALUATION);
    assert!(matches!(session.client_finished(EVALUATION + 1, 1), ClientFinished::Rejected));
}

#[test]
fn client_finished_never_stops_without_expected_clients() {
    let mut session = EvaluationSession::new();
    session.set_evaluation(EVALUATION);
    match session.client_finished(EVALUATION, 4) {
        ClientFinished::Recorded { completed, expected, stop } => {
            assert_eq!((completed, expected, stop), (1, 0, false));
        }
        ClientFinished::Rejected => panic!("report of the current evaluation was rejected"),
    }
}

#[test]
fn evaluation_id_text_is_hyphenated_uuid() {
    let mut session = EvaluationSession::new();
    assert_eq!(session.evaluation_id_text().err().unwrap(), "No active evaluation ID");
    session.set_evaluation(EVALUATION);
    assert_eq!(session.evaluation_id_text().unwrap(), "01234567-89ab-cdef-0011-223344556677");
}

#[test]
fn application_running_needs_an_evaluation() {
    let mut session = EvaluationSession::new();
    assert_eq!(session.mark_application_running().err().unwrap(), "No active evaluation ID");
    assert!(!session.application_status());
    session.set_evaluation(EVALUATION);
    assert_eq!(session.mark_application_running().unwrap(), EVALUATION);
    assert!(session.application_status());
    session.mark_application_stopped();
    assert!(!session.application_status());
}

#[test]
fn reset_forgets_configuration_and_evaluation() {
    let mut session = EvaluationSession::new();
    session.save_server_config(server_config("classical"));
    session.save_client_config(client_config("classical", 1));
    session.set_evaluation(EVALUATION);
    session.reset_configuration();
    assert!(session.server_config().is_err());
    assert!(!session.client_status());
    assert_eq!(session.current_evaluation(), None);
}

#[test]
fn monitored_containers_number_clients_per_configuration() {
    let configs = vec![client_config("classical", 2), client_config("classical", 1)];
    let containers = monitored_containers(&configs);
    let names: Vec<&str> = containers.iter().map(|c| c.name.as_str()).collect();
    assert_eq!(
        names,
        vec!["securecrypt-server", "securecrypt-client-1", "securecrypt-client-2", "securecrypt-client-1"]
    );
    assert_eq!(containers[0].role, "server");
    assert_eq!(containers[0].client_id, None);
    assert_eq!(containers[2].role, "client");
    assert_eq!(containers[2].client_id, Some(2));
}

#[test]
fn evaluation_event_keeps_its_fields() {
    let event = evaluation_event("environment-ready", EVALUATION, None, 4, 4);
    assert_eq!(event.event_type, "environment-ready");
    assert_eq!(event.evaluation_id, EVALUATION);
    assert_eq!(event.client_id, None);
    assert_eq!((event.completed, event.total), (4, 4));
}

fn describe(step: &CleanupStep) -> String {
    match step {
        CleanupStep::RemoveClientContainer(name) => format!("remove {}", name),
        CleanupStep::RemoveServerContainer => "remove server".to_string(),
        CleanupStep::DisconnectApplication => "disconnect".to_string(),
        CleanupStep::RemoveNetwork => "remove network".to_string(),
        CleanupStep::Publish(e) => format!(
            "{} {:?} {}/{}",
            e.event_type, e.client_id, e.completed, e.total
        ),
    }
}

#[test]
fn cleanup_stops_every_client_then_the_environment() {
    let mut session = EvaluationSession::new();
    session.save_client_config(client_config("classical", 2));
    session.begin_evaluation().unwrap();
    session.set_evaluation(EVALUATION);
    session.mark_application_running().unwrap();
    let configs = session.client_configs().unwrap();
    let steps = session.cleanup_evaluation(&configs);
    let described: Vec<String> = steps.iter().map(describe).collect();
    assert_eq!(
        described,
        vec![
            "remove securecrypt-client-1",
            "client-stopped Some(1) 1/2",
            "remove securecrypt-client-2",
            "client-stopped Some(2) 2/2",
            "remove server",
            "server-stopped None 2/2",
            "disconnect",
            "remove network",
            "environment-stopped None 2/2",
        ]
    );
    assert!(!session.is_evaluation_running());
    assert!(!session.application_status());
    assert_eq!(session.current_evaluation(), None);
}

#[test]
fn cleanup_without_evaluation_publishes_nothing() {
    let mut session = EvaluationSession::new();
    let configs = vec![client_config("classical", 1), client_config("classical", 1)];
    let steps = session.cleanup_evaluation(&configs);
    let described: Vec<String> = steps.iter().map(describe).collect();
    assert_eq!(
        described,
        vec![
            "remove securecrypt-client-1",
            "remove securecrypt-client-1",
            "remove server",
            "disconnect",
            "remove network",
        ]
    );
}

#[test]
fn stopping_event_counts_configured_clients() {
    let mut session = EvaluationSession::new();
    let configs = vec![client_config("classical", 3)];
    assert!(session.stopping_event(&configs).is_none());
    session.set_evaluation(EVALUATION);
    let event = session.stopping_event(&configs).unwrap();
    assert_eq!(event.event_type, "environment-stopping");
    assert_eq!((event.completed, event.total), (0, 3));
}

#[test]
fn launch_starts_server_then_numbered_clients() {
    let configs = vec![client_config("post_quantum", 2), client_config("classical", 1)];
    let launch = application_launch(&server_config("post_quantum"), &configs, EVALUATION, 1_700_000_000_000, true);

    let server_env: Vec<(String, String)> = launch.server.environment.clone();
    assert_eq!(
        server_env,
        vec![
            ("ROLE".to_string(), "server".to_string()),
            ("CRYPTO_MODE".to_string(), "post_quantum".to_string()),
            ("CIPHER_SUITES".to_string(), "TLS13_AES_128_GCM_SHA256,TLS13_AES_256_GCM_SHA384".to_string()),
            ("KX_GROUPS".to_string(), "X25519".to_string()),
            ("SECURECRYPT_CONTROL_ADDR".to_string(), "127.0.0.1:9090".to_string()),
        ]
    );
    assert_eq!(launch.server.control_addr, "127.0.0.1:9090");
    assert_eq!(launch.server.configuration.listen_addr.as_deref(), Some("0.0.0.0:8443"));
    assert_eq!(launch.server.configuration.server_addr, None);
    assert_eq!(launch.server.configuration.evaluation_id, "01234567-89ab-cdef-0011-223344556677");

    assert_eq!(launch.clients.len(), 3);
    let third = &launch.clients[2];
    assert_eq!(third.control_addr, "127.0.0.1:9093");
    assert_eq!(third.environment[4], ("CLIENT_ID".to_string(), "3".to_string()));
    assert_eq!(third.environment[5], ("EVALUATION_STARTED_AT".to_string(), "1700000000000".to_string()));
    assert_eq!(third.environment[6].1, "01234567-89ab-cdef-0011-223344556677");
    assert_eq!(third.configuration.crypto_mode, "classical");
    // Without Docker the default server address becomes the local one.
    assert_eq!(third.configuration.server_addr.as_deref(), Some("127.0.0.1:8443"));
    assert_eq!(third.configuration.server_name.as_deref(), Some("localhost"));
    assert_eq!(third.configuration.listen_addr, None);
    assert_eq!(launch.clients[0].configuration.crypto_mode, "post_quantum");

    assert_eq!(launch.client_events.len(), 3);
    let event = &launch.client_events[1];
    assert_eq!(event.event_type, "client-started");
    assert_eq!(event.client_id, Some(2));
    assert_eq!((event.completed, event.total), (2, 3));
}

#[test]
fn launch_keeps_explicit_and_docker_addresses() {
    let mut explicit = client_config("classical", 1);
    explicit.server_addr = "10.0.0.5:9443".to_string();
    let launch = application_launch(&server_config("classical"), &vec![explicit], EVALUATION, -5, true);
    assert_eq!(launch.clients[0].configuration.server_addr.as_deref(), Some("10.0.0.5:9443"));
    assert_eq!(launch.clients[0].environment[5].1, "-5");

    let docker = application_launch(&server_config("classical"), &vec![client_config("classical", 1)], EVALUATION, 0, false);
    assert_eq!(docker.clients[0].configuration.server_addr.as_deref(), Some("securecrypt-server:8443"));
}

#[test]
fn launch_plan_needs_an_evaluation() {
    let mut session = EvaluationSession::new();
    let configs = vec![client_config("classical", 1)];
    assert_eq!(
        session.launch_plan(&server_config("classical"), &configs, 0, false).err().unwrap(),
        "No active evaluation ID"
    );
    session.set_evaluation(EVALUATION);
    let plan = session.launch_plan(&server_config("classical"), &configs, 0, false).unwrap();
    assert_eq!(plan.client_events[0].evaluation_id, EVALUATION);
}

#[test]
fn cleanup_removes_the_monitored_client_containers() {
    let configs = vec![client_config("classical", 3), client_config("classical", 2)];
    let watched: Vec<String> = monitored_containers(&configs)
        .into_iter()
        .skip(1)
        .map(|c| c.name)
        .collect();
    let mut session = EvaluationSession::new();
    session.set_evaluation(EVALUATION);
    let removed: Vec<String> = session
        .cleanup_evaluation(&configs)
        .into_iter()
        .filter_map(|step| match step {
            CleanupStep::RemoveClientContainer(name) => Some(name),
            _ => None,
        })
        .collect();
    assert_eq!(removed, watched);
}

#[test]
fn launched_clients_have_distinct_addresses_and_numbers() {
    let configs = vec![client_config("classical", 2), client_config("post_quantum", 2)];
    let launch = application_launch(&server_config("classical"), &configs, EVALUATION, 0, true);
    let addresses: Vec<&str> = launch.clients.iter().map(|c| c.control_addr.as_str()).collect();
    assert_eq!(addresses, vec!["127.0.0.1:9091", "127.0.0.1:9092", "127.0.0.1:9093", "127.0.0.1:9094"]);
    let numbers: Vec<&str> = launch.clients.iter().map(|c| c.environment[4].1.as_str()).collect();
    assert_eq!(numbers, vec!["1", "2", "3", "4"]);
}

#[test]
fn environment_starting_makes_the_evaluation_current() {
    let mut session = EvaluationSession::new();
    let event = session.environment_starting(EVALUATION, 4);
    assert_eq!(session.current_evaluation(), Some(EVALUATION));
    assert_eq!(event.event_type, "environment-starting");
    assert_eq!(event.client_id, None);
    assert_eq!((event.completed, event.total), (0, 4));
}

#[test]
fn conclude_start_is_ready_with_monitoring_on_docker() {
    let mut session = EvaluationSession::new();
    session.begin_evaluation().unwrap();
    session.set_evaluation(EVALUATION);
    let configs = vec![client_config("classical", 2)];
    match session.conclude_start(EVALUATION, 2, true, false, true, &configs) {
        StartConclusion::Ready { monitor, event } => {
            assert!(monitor);
            assert_eq!(event.event_type, "environment-ready");
            assert_eq!((event.completed, event.total), (2, 2));
        }
        _ => panic!("a launched start should be ready"),
    }
    assert!(session.is_evaluation_running());
    match session.conclude_start(EVALUATION, 2, true, true, false, &configs) {
        StartConclusion::Ready { monitor, .. } => assert!(!monitor),
        _ => panic!("a standalone start needs no Docker"),
    }
}

#[test]
fn conclude_start_needs_docker_to_monitor() {
    let mut session = EvaluationSession::new();
    session.set_evaluation(EVALUATION);
    match session.conclude_start(EVALUATION, 1, true, false, false, &vec![client_config("classical", 1)]) {
        StartConclusion::MonitorUnavailable(error) => assert_eq!(error, "Docker is unavailable"),
        _ => panic!("monitoring without Docker should fail"),
    }
    assert_eq!(session.current_evaluation(), Some(EVALUATION));
}

#[test]
fn failed_launch_cleans_up_and_ends_the_evaluation() {
    let mut session = EvaluationSession::new();
    session.begin_evaluation().unwrap();
    session.set_evaluation(EVALUATION);
    let configs = vec![client_config("classical", 1)];
    match session.conclude_start(EVALUATION, 1, false, true, false, &configs) {
        StartConclusion::CleanUp(steps) => {
            let described: Vec<String> = steps.iter().map(describe).collect();
            assert_eq!(
                described,
                vec![
                    "remove securecrypt-client-1",
                    "client-stopped Some(1) 1/1",
                    "remove server",
                    "server-stopped None 1/1",
                    "disconnect",
                    "remove network",
                    "environment-stopped None 1/1",
                ]
            );
        }
        _ => panic!("a failed launch should clean up"),
    }
    assert!(!session.is_evaluation_running());
    assert_eq!(session.current_evaluation(), None);
}

#[test]
fn application_started_gives_the_server_started_event() {
    let mut session = EvaluationSession::new();
    assert_eq!(session.application_started().err().unwrap(), "No active evaluation ID");
    assert!(!session.application_status());
    session.set_evaluation(EVALUATION);
    let event = session.application_started().unwrap();
    assert_eq!(event.event_type, "server-started");
    assert_eq!(event.evaluation_id, EVALUATION);
    assert_eq!(event.client_id, None);
    assert_eq!((event.completed, event.total), (0, 0));
    assert!(session.application_status());
}

#[test]
fn attempts_are_retried_fifty_times() {
    assert_eq!(retry_step(1, true), RetryStep::Done);
    assert_eq!(retry_step(1, false), RetryStep::Retry { delay_ms: 100 });
    assert_eq!(retry_step(49, false), RetryStep::Retry { delay_ms: 100 });
    assert_eq!(retry_step(50, false), RetryStep::GiveUp { delay_ms: 100 });
    assert_eq!(retry_step(50, true), RetryStep::Done);
    assert_eq!(
        server_not_ready(),
        "External application server did not become ready on 127.0.0.1:8443"
    );
    assert_eq!(
        configuration_failed("127.0.0.1:9091"),
        "Could not configure external application at 127.0.0.1:9091"
    );
}
