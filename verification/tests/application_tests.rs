use secure_crypt::application::{
    chunk_count, chunk_size, client_greeting, parse_comma_list, role_from, Role, CHUNK_SIZE,
};
use secure_crypt::user_application::{ChatMessage, ChatService};

fn download_length(size: u64) -> u64 {
    let mut total = 0u64;
    for chunk in 0..chunk_count(size) {
        let len = chunk_size(size, chunk);
        assert!(len > 0 && len <= CHUNK_SIZE);
        total += len;
    }
    total
}

#[test]
fn chat_service_accepts_and_processes_a_message() {
    let service = ChatService;

    let request = ChatMessage {
        client_id: "client-01".to_string(),
        content: "Hello SecureCrypt".to_string(),
    };

    let message = service.send_message(request);

    assert!(message.success);
    assert_eq!(message.message, "Message received from client-01");
}

#[test]
fn download_returns_requested_size() {
    assert_eq!(download_length(1024), 1024);
    assert_eq!(chunk_count(1024), 1);
}

#[test]
fn download_returns_zero_bytes_for_zero_size() {
    assert_eq!(chunk_count(0), 0);
    assert_eq!(download_length(0), 0);
}

#[test]
fn download_handles_multiple_chunks() {
    let requested_size = (CHUNK_SIZE * 2) + 100;

    assert_eq!(chunk_count(requested_size), 3);
    assert_eq!(chunk_size(requested_size, 0), CHUNK_SIZE);
    assert_eq!(chunk_size(requested_size, 2), 100);
    assert_eq!(download_length(requested_size), requested_size);
}

#[test]
fn download_of_exact_chunks_has_no_short_chunk() {
    assert_eq!(chunk_count(CHUNK_SIZE * 3), 3);
    assert_eq!(chunk_size(CHUNK_SIZE * 3, 2), CHUNK_SIZE);
    assert_eq!(download_length(CHUNK_SIZE * 3), CHUNK_SIZE * 3);
}

#[test]
fn role_is_read_from_setting() {
    assert_eq!(role_from(None), Ok(Role::Dashboard));
    assert_eq!(role_from(Some("dashboard")), Ok(Role::Dashboard));
    assert_eq!(role_from(Some("server")), Ok(Role::Server));
    assert_eq!(role_from(Some("client")), Ok(Role::Client));
    assert_eq!(
        role_from(Some("Server")),
        Err("Invalid ROLE. Expected 'dashboard', 'server' or 'client'".to_string())
    );
}

#[test]
fn client_greeting_names_the_client() {
    assert_eq!(
        client_greeting(Some("7")),
        ("Client 7".to_string(), "Hello, Server!".to_string())
    );
    assert_eq!(client_greeting(None).0, "Client 1");
}

#[test]
fn comma_list_drops_empty_fields() {
    assert_eq!(
        parse_comma_list("TLS13_AES_128_GCM_SHA256,,TLS13_CHACHA20_POLY1305_SHA256,"),
        vec!["TLS13_AES_128_GCM_SHA256".to_string(), "TLS13_CHACHA20_POLY1305_SHA256".to_string()]
    );
    assert!(parse_comma_list("").is_empty());
    assert!(parse_comma_list(",,").is_empty());
    assert_eq!(parse_comma_list("X25519"), vec!["X25519".to_string()]);
}

#[test]
fn comma_list_reads_back_joined_fields() {
    let groups = vec!["X25519".to_string(), "MLKEM768".to_string(), "secp256r1".to_string()];
    assert_eq!(parse_comma_list(&groups.join(",")), groups);
}
