use secure_crypt::containers::{client_container_spec, server_container_spec};
use secure_crypt::evaluation::{ClientConfig, CryptoMode, EvaluationSession, ServerConfig};

fn client_config() -> ClientConfig {
    ClientConfig {
        key_exchange: CryptoMode::new("post_quantum".to_string()),
        cipher_suites: vec!["TLS13_AES_128_GCM_SHA256".to_string()],
        kx_groups: vec!["X25519MLKEM768".to_string(), "X25519".to_string()],
        server_addr: "securecrypt-server:8443".to_string(),
        server_name: "securecrypt-server".to_string(),
        num_connections: 4,
    }
}

#[test]
fn server_container_carries_crypto_settings() {
    let config = ServerConfig {
        key_exchange: CryptoMode::new("classical".to_string()),
        cipher_suites: vec!["A".to_string(), "B".to_string()],
        kx_groups: vec![],
    };
    let spec = server_container_spec(&config);
    assert_eq!(spec.name, "securecrypt-server");
    assert_eq!(spec.image, "securecrypt-server:latest");
    assert_eq!(spec.env, vec!["CRYPTO_MODE=classical", "CIPHER_SUITES=A,B", "KX_GROUPS="]);
    assert_eq!(spec.aliases, vec!["securecrypt-server"]);
}

#[test]
fn client_container_is_numbered_from_one() {
    let (spec, event) = client_container_spec(2, &client_config(), 0xff, 123);
    assert_eq!(spec.name, "securecrypt-client-3");
    assert_eq!(spec.image, "securecrypt-client:latest");
    assert_eq!(
        spec.env,
        vec![
            "CRYPTO_MODE=post_quantum",
            "CIPHER_SUITES=TLS13_AES_128_GCM_SHA256",
            "KX_GROUPS=X25519MLKEM768,X25519",
            "EVALUATION_ID=00000000-0000-0000-0000-0000000000ff",
            "CLIENT_ID=3",
            "EVALUATION_STARTED_AT=123",
            "SERVER_ADDR=securecrypt-server:8443",
            "SERVER_NAME=securecrypt-server",
            "CONFIG_URL=https://securecrypt-application:8443/transfer/latest",
        ]
    );
    assert_eq!(spec.aliases, vec!["securecrypt-client-3"]);
    assert_eq!(event.event_type, "client-started");
    assert_eq!(event.client_id, Some(3));
    assert_eq!((event.completed, event.total), (3, 4));
}

#[test]
fn client_container_plan_needs_an_evaluation() {
    let mut session = EvaluationSession::new();
    assert_eq!(
        session.client_container_plan(0, &client_config(), 0).err().unwrap(),
        "No active evaluation ID"
    );
    session.set_evaluation(0xff);
    let (spec, _) = session.client_container_plan(0, &client_config(), 0).unwrap();
    assert_eq!(spec.name, "securecrypt-client-1");
}
