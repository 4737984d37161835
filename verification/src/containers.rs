//! The Docker containers of an evaluation: what each one is created
//! with. Creating, connecting and starting them is left to the caller.

use vstd::prelude::*;
use crate::evaluation::{
    ClientConfig, ClientConfigView, ServerConfig, ServerConfigView, EvaluationEvent, EvaluationSession, client_container_name, client_container, evaluation_event, event_view,
};
use crate::text::{decimal, signed_decimal, join_texts, uuid_text, uuid_string, push_decimal,
    push_signed_decimal, join_strings};

verus! {

/// The name of the Docker network of an evaluation.
pub open spec fn evaluation_network() -> Seq<char> {
    "securecrypt-evaluation-network"@
}

/// How a container is created: its name, its image, its environment
/// (`KEY=value` entries) and its aliases on the evaluation network.
pub struct ContainerSpec {
    pub name: String,
    pub image: String,
    pub env: Vec<String>,
    pub aliases: Vec<String>,
}

/// Mathematical form of a container specification.
pub struct ContainerView {
    pub name: Seq<char>,
    pub image: Seq<char>,
    pub env: Seq<Seq<char>>,
    pub aliases: Seq<Seq<char>>,
}

impl View for ContainerSpec {
    type V = ContainerView;

    open spec fn view(&self) -> ContainerView {
        ContainerView {
            name: self.name@,
            image: self.image@,
            env: self.env@.map_values(|e: String| e@),
            aliases: self.aliases@.map_values(|a: String| a@),
        }
    }
}

/// The evaluation server container.
pub open spec fn server_container(config: ServerConfigView) -> ContainerView {
    ContainerView {
        name: "securecrypt-server"@,
        image: "securecrypt-server:latest"@,
        env: seq![
            "CRYPTO_MODE="@ + config.key_exchange,
            "CIPHER_SUITES="@ + join_texts(config.cipher_suites, ","@),
            "KX_GROUPS="@ + join_texts(config.kx_groups, ","@),
        ],
        aliases: seq!["securecrypt-server"@],
    }
}

/// The container of client `client` (numbered from 1) of evaluation
/// `evaluation_id`.
pub open spec fn client_container_view(
    client: int,
    config: ClientConfigView,
    evaluation_id: u128,
    evaluation_started_at: int,
) -> ContainerView {
    ContainerView {
        name: client_container_name(client),
        image: "securecrypt-client:latest"@,
        env: seq![
            "CRYPTO_MODE="@ + config.key_exchange,
            "CIPHER_SUITES="@ + join_texts(config.cipher_suites, ","@),
            "KX_GROUPS="@ + join_texts(config.kx_groups, ","@),
            "EVALUATION_ID="@ + uuid_text(evaluation_id),
            "CLIENT_ID="@ + decimal(client as nat),
            "EVALUATION_STARTED_AT="@ + signed_decimal(evaluation_started_at),
            "SERVER_ADDR="@ + config.server_addr,
            "SERVER_NAME="@ + config.server_name,
            "CONFIG_URL=https://securecrypt-application:8443/transfer/latest"@,
        ],
        aliases: seq![client_container_name(client)],
    }
}

fn entry(key: &str, value: &str) -> (e: String)
    ensures
        e@ == key@ + value@,
{
    let mut e = String::from_str(key);
    e.append(value);
    e
}

/// How the evaluation server container is created.
pub fn server_container_spec(config: &ServerConfig) -> (spec: ContainerSpec)
    ensures
        spec@ == server_container(config@),
{
    let suites = join_strings(&config.cipher_suites, ",");
    let groups = join_strings(&config.kx_groups, ",");
    let mut env: Vec<String> = Vec::new();
    env.push(entry("CRYPTO_MODE=", config.key_exchange.0.as_str()));
    env.push(entry("CIPHER_SUITES=", suites.as_str()));
    env.push(entry("KX_GROUPS=", groups.as_str()));
    let mut aliases: Vec<String> = Vec::new();
    aliases.push(String::from_str("securecrypt-server"));
    let spec = ContainerSpec {
        name: String::from_str("securecrypt-server"),
        image: String::from_str("securecrypt-server:latest"),
        env,
        aliases,
    };
    assert(spec@.env =~= server_container(config@).env);
    assert(spec@.aliases =~= server_container(config@).aliases);
    spec
}

/// How the container of the client with index `client_index` (from 0)
/// of configuration `config` is created, and the `client-started` event
/// published once it runs: that client is the `client_index + 1`-th of
/// the configuration's connections.
pub fn client_container_spec(
    client_index: u32,
    config: &ClientConfig,
    evaluation_id: u128,
    evaluation_started_at: i64,
) -> (r: (ContainerSpec, EvaluationEvent))
    requires
        client_index < u32::MAX,
    ensures
        r.0@ == client_container_view(
            client_index + 1,
            config@,
            evaluation_id,
            evaluation_started_at as int,
        ),
        r.1@ == event_view(
            "client-started"@,
            evaluation_id,
            Some((client_index + 1) as i32),
            client_index + 1,
            config.num_connections as int,
        ),
{
    let client = client_index + 1;
    let name = client_container(client);
    let suites = join_strings(&config.cipher_suites, ",");
    let groups = join_strings(&config.kx_groups, ",");
    let id_text = uuid_string(evaluation_id);
    let mut client_text = String::from_str("CLIENT_ID=");
    push_decimal(&mut client_text, client as u64);
    let mut started_text = String::from_str("EVALUATION_STARTED_AT=");
    push_signed_decimal(&mut started_text, evaluation_started_at);
    let mut env: Vec<String> = Vec::new();
    env.push(entry("CRYPTO_MODE=", config.key_exchange.0.as_str()));
    env.push(entry("CIPHER_SUITES=", suites.as_str()));
    env.push(entry("KX_GROUPS=", groups.as_str()));
    env.push(entry("EVALUATION_ID=", id_text.as_str()));
    env.push(client_text);
    env.push(started_text);
    env.push(entry("SERVER_ADDR=", config.server_addr.as_str()));
    env.push(entry("SERVER_NAME=", config.server_name.as_str()));
    env.push(String::from_str("CONFIG_URL=https://securecrypt-application:8443/transfer/latest"));
    let mut aliases: Vec<String> = Vec::new();
    aliases.push(name.clone());
    let spec = ContainerSpec {
        name,
        image: String::from_str("securecrypt-client:latest"),
        env,
        aliases,
    };
    let ghost expected = client_container_view(
        client as int,
        config@,
        evaluation_id,
        evaluation_started_at as int,
    );
    assert(spec@.env =~= expected.env);
    assert(spec@.aliases =~= expected.aliases);
    let event = evaluation_event(
        "client-started",
        evaluation_id,
        Some(client as i32),
        client as i64,
        config.num_connections as i64,
    );
    (spec, event)
}

impl EvaluationSession {
    /// The client container of `client_container_spec` for the current
    /// evaluation, or the error that there is none.
    pub fn client_container_plan(
        &self,
        client_index: u32,
        config: &ClientConfig,
        evaluation_started_at: i64,
    ) -> (r: Result<(ContainerSpec, EvaluationEvent), String>)
        requires
            client_index < u32::MAX,
        ensures
            match r {
                Ok(plan) => {
                    &&& self@.evaluation_id is Some
                    &&& plan.0@ == client_container_view(
                        client_index + 1,
                        config@,
                        self@.evaluation_id->0,
                        evaluation_started_at as int,
                    )
                    &&& plan.1@ == event_view(
                        "client-started"@,
                        self@.evaluation_id->0,
                        Some((client_index + 1) as i32),
                        client_index + 1,
                        config.num_connections as int,
                    )
                },
                Err(e) => self@.evaluation_id is None && e@ == "No active evaluation ID"@,
            },
    {
        match self.current_evaluation() {
            Some(id) => Ok(client_container_spec(client_index, config, id, evaluation_started_at)),
            None => Err(String::from_str("No active evaluation ID")),
        }
    }
}

} // verus!
