//! Starting and stopping an evaluation: the steps that the dashboard
//! takes, in order, and how the session changes with them.

use vstd::prelude::*;
use crate::evaluation::{
    ClientConfig, ClientConfigView, ServerConfig, ServerConfigView, EvaluationEvent, EventView,
    EvaluationSession, SessionView, client_total, client_total_fits, config_views, config_slots,
    client_container_name, client_container, client_count, evaluation_event, event_view,
    monitored_views,
    lemma_config_slots_step, copy_strings, texts,
};
use crate::text::{decimal, signed_decimal, join_texts, uuid_text, uuid_string, push_decimal,
    push_signed_decimal, decimal_string, join_strings};

verus! {

/// The number of client processes that a list of configurations asks
/// for.
pub open spec fn connection_total(configs: Seq<ClientConfigView>) -> nat
    decreases configs.len(),
{
    if configs.len() == 0 {
        0
    } else {
        connection_total(configs.drop_last()) + configs.last().num_connections as nat
    }
}

/// There is one client slot per requested connection.
pub proof fn lemma_slots_len(configs: Seq<ClientConfigView>)
    ensures
        config_slots(configs).len() == connection_total(configs),
    decreases configs.len(),
{
    if configs.len() > 0 {
        lemma_slots_len(configs.drop_last());
    }
}

/// A prefix of the configurations asks for no more connections.
pub proof fn lemma_prefix_total(configs: Seq<ClientConfigView>, j: int)
    requires
        0 <= j <= configs.len(),
    ensures
        connection_total(configs.take(j)) <= connection_total(configs),
    decreases configs.len(),
{
    if j == configs.len() {
        assert(configs.take(j) =~= configs);
    } else {
        assert(configs.take(j) =~= configs.drop_last().take(j));
        lemma_prefix_total(configs.drop_last(), j);
    }
}

/// Where the connections fit in an `i32`, the `i32` total of the counts
/// is the number of connections, and every partial total fits.
pub proof fn lemma_totals_agree(configs: Seq<ClientConfigView>)
    requires
        connection_total(configs) <= i32::MAX,
    ensures
        client_total(configs) == connection_total(configs),
        client_total_fits(configs),
    decreases configs.len(),
{
    if configs.len() > 0 {
        lemma_totals_agree(configs.drop_last());
        assert(configs.last().num_connections <= i32::MAX);
    }
    assert forall|j: int| 0 <= j <= configs.len() implies i32::MIN <= #[trigger] client_total(
        configs.take(j),
    ) <= i32::MAX by {
        if j == configs.len() {
            assert(configs.take(j) =~= configs);
        } else {
            assert(configs.take(j) =~= configs.drop_last().take(j));
        }
    }
}

/// One step of tearing down an evaluation environment.
pub enum CleanupStep {
    /// Remove the Docker container of that name.
    RemoveClientContainer(String),
    /// Remove the server container.
    RemoveServerContainer,
    /// Disconnect the dashboard from the evaluation network.
    DisconnectApplication,
    /// Remove the evaluation network.
    RemoveNetwork,
    /// Publish the event to dashboard clients.
    Publish(EvaluationEvent),
}

/// Mathematical form of a cleanup step.
pub enum CleanupStepView {
    RemoveClientContainer(Seq<char>),
    RemoveServerContainer,
    DisconnectApplication,
    RemoveNetwork,
    Publish(EventView),
}

impl View for CleanupStep {
    type V = CleanupStepView;

    open spec fn view(&self) -> CleanupStepView {
        match self {
            CleanupStep::RemoveClientContainer(name) => CleanupStepView::RemoveClientContainer(
                name@,
            ),
            CleanupStep::RemoveServerContainer => CleanupStepView::RemoveServerContainer,
            CleanupStep::DisconnectApplication => CleanupStepView::DisconnectApplication,
            CleanupStep::RemoveNetwork => CleanupStepView::RemoveNetwork,
            CleanupStep::Publish(event) => CleanupStepView::Publish(event@),
        }
    }
}

/// An event without client, published only while an evaluation is
/// current.
pub open spec fn notice(
    evaluation_id: Option<u128>,
    event_type: Seq<char>,
    completed: int,
    total: int,
) -> Seq<CleanupStepView> {
    match evaluation_id {
        Some(e) => seq![CleanupStepView::Publish(event_view(event_type, e, None, completed, total))],
        None => Seq::empty(),
    }
}

/// Stopping the client numbered `client` as the `stopped`-th one.
pub open spec fn client_stop(
    client: int,
    stopped: int,
    evaluation_id: Option<u128>,
    total: int,
) -> Seq<CleanupStepView> {
    seq![CleanupStepView::RemoveClientContainer(client_container_name(client))] + match evaluation_id {
        Some(e) => seq![
            CleanupStepView::Publish(
                event_view("client-stopped"@, e, Some(client as i32), stopped, total),
            ),
        ],
        None => Seq::empty(),
    }
}

/// Stopping the clients of the given slots, in order.
pub open spec fn client_stops(
    slots: Seq<(int, int)>,
    evaluation_id: Option<u128>,
    total: int,
) -> Seq<CleanupStepView>
    decreases slots.len(),
{
    if slots.len() == 0 {
        Seq::empty()
    } else {
        client_stops(slots.drop_last(), evaluation_id, total) + client_stop(
            slots.last().1,
            slots.len() as int,
            evaluation_id,
            total,
        )
    }
}

/// The steps of a cleanup: every client container, numbered from 1 in
/// each configuration, then the server container, the network, and the
/// events that tell dashboard clients about it while an evaluation is
/// current.
pub open spec fn cleanup_steps(
    configs: Seq<ClientConfigView>,
    evaluation_id: Option<u128>,
) -> Seq<CleanupStepView> {
    let slots = config_slots(configs);
    let total = client_total(configs);
    client_stops(slots, evaluation_id, total) + seq![CleanupStepView::RemoveServerContainer]
        + notice(evaluation_id, "server-stopped"@, slots.len() as int, total) + seq![
        CleanupStepView::DisconnectApplication,
        CleanupStepView::RemoveNetwork,
    ] + notice(evaluation_id, "environment-stopped"@, total, total)
}

/// Whether the steps remove the client container `name`.
pub open spec fn removes_client(steps: Seq<CleanupStepView>, name: Seq<char>) -> bool {
    steps.contains(CleanupStepView::RemoveClientContainer(name))
}

proof fn lemma_client_stops_remove(slots: Seq<(int, int)>, evaluation_id: Option<u128>, total: int)
    ensures
        forall|k: int|
            0 <= k < slots.len() ==> removes_client(
                client_stops(slots, evaluation_id, total),
                client_container_name(#[trigger] slots[k].1),
            ),
        forall|name: Seq<char>|
            #[trigger] removes_client(client_stops(slots, evaluation_id, total), name) ==> exists|
                k: int,
            |
                0 <= k < slots.len() && name == client_container_name(#[trigger] slots[k].1),
    decreases slots.len(),
{
    if slots.len() > 0 {
        let init = slots.drop_last();
        lemma_client_stops_remove(init, evaluation_id, total);
        let a = client_stops(init, evaluation_id, total);
        let b = client_stop(slots.last().1, slots.len() as int, evaluation_id, total);
        let all = client_stops(slots, evaluation_id, total);
        assert(all == a + b);
        assert forall|k: int| 0 <= k < slots.len() implies removes_client(
            all,
            client_container_name(#[trigger] slots[k].1),
        ) by {
            if k < init.len() {
                assert(init[k] == slots[k]);
                let j = choose|j: int|
                    0 <= j < a.len() && a[j] == CleanupStepView::RemoveClientContainer(
                        client_container_name(init[k].1),
                    );
                assert(all[j] == a[j]);
            } else {
                assert(all[a.len() as int] == b[0]);
            }
        }
        assert forall|name: Seq<char>| #[trigger] removes_client(all, name) implies exists|k: int|
            0 <= k < slots.len() && name == client_container_name(#[trigger] slots[k].1) by {
            let j = choose|j: int|
                0 <= j < all.len() && all[j] == CleanupStepView::RemoveClientContainer(name);
            if j < a.len() {
                assert(all[j] == a[j]);
                assert(removes_client(a, name));
                let k = choose|k: int|
                    0 <= k < init.len() && name == client_container_name(#[trigger] init[k].1);
                assert(slots[k] == init[k]);
            } else {
                assert(all[j] == b[j - a.len()]);
                assert(j - a.len() == 0);
                assert(slots[slots.len() - 1] == slots.last());
            }
        }
    }
}

/// Cleanup removes every client container that monitoring watched, and
/// no other client container.
pub proof fn law_cleanup_removes_monitored_clients(
    configs: Seq<ClientConfigView>,
    evaluation_id: Option<u128>,
)
    ensures
        forall|k: int|
            1 <= k < monitored_views(configs).len() ==> removes_client(
                cleanup_steps(configs, evaluation_id),
                (#[trigger] monitored_views(configs)[k]).0,
            ),
        forall|name: Seq<char>|
            #[trigger] removes_client(cleanup_steps(configs, evaluation_id), name) ==> exists|k: int|
                1 <= k < monitored_views(configs).len() && name == (
                #[trigger] monitored_views(configs)[k]).0,
{
    let slots = config_slots(configs);
    let total = client_total(configs);
    lemma_client_stops_remove(slots, evaluation_id, total);
    let a = client_stops(slots, evaluation_id, total);
    let all = cleanup_steps(configs, evaluation_id);
    let rest = seq![CleanupStepView::RemoveServerContainer] + notice(
        evaluation_id,
        "server-stopped"@,
        slots.len() as int,
        total,
    ) + seq![CleanupStepView::DisconnectApplication, CleanupStepView::RemoveNetwork] + notice(
        evaluation_id,
        "environment-stopped"@,
        total,
        total,
    );
    assert(all =~= a + rest);
    assert forall|i: int| 0 <= i < rest.len() implies !(#[trigger] rest[i] is RemoveClientContainer) by {
    }
    let watched = monitored_views(configs);
    assert forall|k: int| 1 <= k < watched.len() implies removes_client(
        all,
        (#[trigger] watched[k]).0,
    ) by {
        assert(watched[k].0 == client_container_name(slots[k - 1].1));
        let j = choose|j: int|
            0 <= j < a.len() && a[j] == CleanupStepView::RemoveClientContainer(
                client_container_name(slots[k - 1].1),
            );
        assert(all[j] == a[j]);
    }
    assert forall|name: Seq<char>| #[trigger] removes_client(all, name) implies exists|k: int|
        1 <= k < watched.len() && name == (#[trigger] watched[k]).0 by {
        let j = choose|j: int| 0 <= j < all.len() && all[j] == CleanupStepView::RemoveClientContainer(name);
        if j >= a.len() {
            assert(all[j] == rest[j - a.len()]);
            assert(false);
        }
        assert(all[j] == a[j]);
        assert(removes_client(a, name));
        let k = choose|k: int| 0 <= k < slots.len() && name == client_container_name(#[trigger] slots[k].1);
        assert(watched[k + 1].0 == client_container_name(slots[k].1));
    }
}

/// The views of a list of steps.
pub open spec fn step_views(steps: Seq<CleanupStep>) -> Seq<CleanupStepView> {
    steps.map_values(|s: CleanupStep| s@)
}

proof fn lemma_step_views_push(steps: Seq<CleanupStep>, s: CleanupStep)
    ensures
        step_views(steps.push(s)) == step_views(steps).push(s@),
{
    assert(step_views(steps.push(s)) =~= step_views(steps).push(s@));
}

fn publish_notice(
    steps: &mut Vec<CleanupStep>,
    evaluation_id: Option<u128>,
    event_type: &str,
    completed: i64,
    total: i64,
)
    ensures
        step_views(final(steps)@) == step_views(old(steps)@) + notice(
            evaluation_id,
            event_type@,
            completed as int,
            total as int,
        ),
{
    match evaluation_id {
        Some(e) => {
            let ghost before = steps@;
            steps.push(CleanupStep::Publish(evaluation_event(event_type, e, None, completed, total)));
            proof {
                lemma_step_views_push(before, steps@.last());
                assert(steps@ == before.push(steps@.last()));
            }
        },
        None => {
            assert(step_views(steps@) + Seq::<CleanupStepView>::empty() =~= step_views(steps@));
        },
    }
}

fn push_step(steps: &mut Vec<CleanupStep>, s: CleanupStep)
    ensures
        step_views(final(steps)@) == step_views(old(steps)@).push(s@),
{
    let ghost before = steps@;
    steps.push(s);
    proof {
        lemma_step_views_push(before, s);
    }
}

impl EvaluationSession {
    /// Tears down the evaluation environment of `configs`.
    ///
    /// Returns the steps to take, in order: each client container with
    /// its `client-stopped` event, the server container with
    /// `server-stopped`, the network, and `environment-stopped` (the
    /// events only while an evaluation is current). The application and
    /// the evaluation are then no longer running, and no evaluation is
    /// current.
    pub fn cleanup_evaluation(&mut self, configs: &Vec<ClientConfig>) -> (steps: Vec<CleanupStep>)
        requires
            connection_total(config_views(configs@)) <= i32::MAX,
        ensures
            step_views(steps@) == cleanup_steps(
                config_views(configs@),
                old(self)@.evaluation_id,
            ),
            final(self)@ == (SessionView {
                application_running: false,
                is_evaluation_running: false,
                evaluation_id: None,
                ..old(self)@
            }),
    {
        let ghost views = config_views(configs@);
        let evaluation_id = self.current_evaluation();
        proof {
            lemma_totals_agree(views);
            lemma_slots_len(views);
        }
        let total = client_count(configs);
        let mut steps: Vec<CleanupStep> = Vec::new();
        let mut stopped: i32 = 0;
        let mut c: usize = 0;
        assert(views.take(0) =~= Seq::<ClientConfigView>::empty());
        assert(step_views(steps@) =~= Seq::<CleanupStepView>::empty());
        while c < configs.len()
            invariant
                c <= configs.len(),
                views == config_views(configs@),
                connection_total(views) <= i32::MAX,
                total == client_total(views),
                stopped == config_slots(views.take(c as int)).len(),
                step_views(steps@) == client_stops(
                    config_slots(views.take(c as int)),
                    evaluation_id,
                    total as int,
                ),
            decreases configs.len() - c,
        {
            let n = configs[c].num_connections;
            let ghost base = config_slots(views.take(c as int));
            proof {
                lemma_config_slots_step(views, c as int);
                lemma_slots_len(views.take(c + 1));
                lemma_prefix_total(views, c + 1);
                assert(views.take(c + 1)[c as int] == views[c as int]);
                assert(base.len() + n <= i32::MAX);
                assert(base + Seq::new(0, |i: int| (c as int, i + 1)) =~= base);
            }
            let mut k: u32 = 0;
            while k < n
                invariant
                    k <= n,
                    c < configs.len(),
                    views == config_views(configs@),
                    n == views[c as int].num_connections,
                    base.len() + n <= i32::MAX,
                    total == client_total(views),
                    stopped == base.len() + k,
                    step_views(steps@) == client_stops(
                        base + Seq::new(k as nat, |i: int| (c as int, i + 1)),
                        evaluation_id,
                        total as int,
                    ),
                decreases n - k,
            {
                let client = k + 1;
                stopped = stopped + 1;
                let ghost old_slots = base + Seq::new(k as nat, |i: int| (c as int, i + 1));
                let ghost new_slots = base + Seq::new((k + 1) as nat, |i: int| (c as int, i + 1));
                assert(new_slots.drop_last() =~= old_slots);
                assert(new_slots.last() == (c as int, client as int));
                assert(new_slots.len() == stopped);
                push_step(&mut steps, CleanupStep::RemoveClientContainer(client_container(client)));
                match evaluation_id {
                    Some(e) => {
                        push_step(
                            &mut steps,
                            CleanupStep::Publish(
                                evaluation_event(
                                    "client-stopped",
                                    e,
                                    Some(client as i32),
                                    stopped as i64,
                                    total as i64,
                                ),
                            ),
                        );
                    },
                    None => {},
                }
                assert(step_views(steps@) =~= client_stops(old_slots, evaluation_id, total as int)
                    + client_stop(client as int, stopped as int, evaluation_id, total as int));
                k = k + 1;
            }
            assert(base + Seq::new(n as nat, |i: int| (c as int, i + 1)) == config_slots(
                views.take(c + 1),
            ));
            c = c + 1;
        }
        assert(views.take(configs.len() as int) =~= views);
        push_step(&mut steps, CleanupStep::RemoveServerContainer);
        publish_notice(&mut steps, evaluation_id, "server-stopped", stopped as i64, total as i64);
        push_step(&mut steps, CleanupStep::DisconnectApplication);
        push_step(&mut steps, CleanupStep::RemoveNetwork);
        self.mark_application_stopped();
        self.end_evaluation();
        publish_notice(&mut steps, evaluation_id, "environment-stopped", total as i64, total as i64);
        self.clear_evaluation();
        assert(step_views(steps@) =~= cleanup_steps(views, evaluation_id));
        steps
    }
}

/// The configuration sent to a started application process.
pub struct ApplicationConfiguration {
    pub evaluation_id: String,
    pub crypto_mode: String,
    pub cipher_suites: Vec<String>,
    pub kx_groups: Vec<String>,
    pub server_addr: Option<String>,
    pub server_name: Option<String>,
    pub listen_addr: Option<String>,
}

/// Mathematical form of an application configuration.
pub struct ConfigurationView {
    pub evaluation_id: Seq<char>,
    pub crypto_mode: Seq<char>,
    pub cipher_suites: Seq<Seq<char>>,
    pub kx_groups: Seq<Seq<char>>,
    pub server_addr: Option<Seq<char>>,
    pub server_name: Option<Seq<char>>,
    pub listen_addr: Option<Seq<char>>,
}

/// The text of an optional string.
pub open spec fn optional_text(o: Option<String>) -> Option<Seq<char>> {
    match o {
        Some(s) => Some(s@),
        None => None,
    }
}

impl View for ApplicationConfiguration {
    type V = ConfigurationView;

    open spec fn view(&self) -> ConfigurationView {
        ConfigurationView {
            evaluation_id: self.evaluation_id@,
            crypto_mode: self.crypto_mode@,
            cipher_suites: texts(self.cipher_suites@),
            kx_groups: texts(self.kx_groups@),
            server_addr: optional_text(self.server_addr),
            server_name: optional_text(self.server_name),
            listen_addr: optional_text(self.listen_addr),
        }
    }
}

/// How one application process is started: its environment, the
/// control address at which it is configured, and its configuration.
pub struct ProcessLaunch {
    pub environment: Vec<(String, String)>,
    pub control_addr: String,
    pub configuration: ApplicationConfiguration,
}

/// Mathematical form of a process launch.
pub struct LaunchView {
    pub environment: Seq<(Seq<char>, Seq<char>)>,
    pub control_addr: Seq<char>,
    pub configuration: ConfigurationView,
}

/// The texts of an environment.
pub open spec fn environment_view(env: Seq<(String, String)>) -> Seq<(Seq<char>, Seq<char>)> {
    env.map_values(|p: (String, String)| (p.0@, p.1@))
}

impl View for ProcessLaunch {
    type V = LaunchView;

    open spec fn view(&self) -> LaunchView {
        LaunchView {
            environment: environment_view(self.environment@),
            control_addr: self.control_addr@,
            configuration: self.configuration@,
        }
    }
}

/// The launch of the evaluation server: it listens on port 8443 and is
/// configured through port 9090.
pub open spec fn server_launch(server: ServerConfigView, evaluation_id: Seq<char>) -> LaunchView {
    LaunchView {
        environment: seq![
            ("ROLE"@, "server"@),
            ("CRYPTO_MODE"@, server.key_exchange),
            ("CIPHER_SUITES"@, join_texts(server.cipher_suites, ","@)),
            ("KX_GROUPS"@, join_texts(server.kx_groups, ","@)),
            ("SECURECRYPT_CONTROL_ADDR"@, "127.0.0.1:9090"@),
        ],
        control_addr: "127.0.0.1:9090"@,
        configuration: ConfigurationView {
            evaluation_id,
            crypto_mode: server.key_exchange,
            cipher_suites: server.cipher_suites,
            kx_groups: server.kx_groups,
            server_addr: None,
            server_name: None,
            listen_addr: Some("0.0.0.0:8443"@),
        },
    }
}

/// The control address of the client numbered `client` over all
/// configurations: port 9090 plus that number.
pub open spec fn client_control_addr(client: int) -> Seq<char> {
    "127.0.0.1:"@ + decimal((9090 + client) as nat)
}

/// The server address a client connects to: without Docker the default
/// container address is not resolvable and becomes the local one; any
/// other address stays as configured.
pub open spec fn client_server_addr(config: ClientConfigView, standalone: bool) -> Seq<char> {
    if standalone && config.server_addr == "securecrypt-server:8443"@ {
        "127.0.0.1:8443"@
    } else {
        config.server_addr
    }
}

/// The launch of the client numbered `client` over all configurations.
pub open spec fn client_launch(
    config: ClientConfigView,
    client: int,
    evaluation_id: Seq<char>,
    evaluation_started_at: int,
    standalone: bool,
) -> LaunchView {
    LaunchView {
        environment: seq![
            ("ROLE"@, "client"@),
            ("CRYPTO_MODE"@, config.key_exchange),
            ("CIPHER_SUITES"@, join_texts(config.cipher_suites, ","@)),
            ("KX_GROUPS"@, join_texts(config.kx_groups, ","@)),
            ("CLIENT_ID"@, decimal(client as nat)),
            ("EVALUATION_STARTED_AT"@, signed_decimal(evaluation_started_at)),
            ("EVALUATION_ID"@, evaluation_id),
            ("SECURECRYPT_CONTROL_ADDR"@, client_control_addr(client)),
        ],
        control_addr: client_control_addr(client),
        configuration: ConfigurationView {
            evaluation_id,
            crypto_mode: config.key_exchange,
            cipher_suites: config.cipher_suites,
            kx_groups: config.kx_groups,
            server_addr: Some(client_server_addr(config, standalone)),
            server_name: Some(config.server_name),
            listen_addr: None,
        },
    }
}

/// How the external application is started for an evaluation: the
/// server first, then one client per connection, each client followed by
/// its `client-started` event.
pub struct ApplicationLaunch {
    pub server: ProcessLaunch,
    pub clients: Vec<ProcessLaunch>,
    pub client_events: Vec<EvaluationEvent>,
}

fn pair(key: &str, value: String) -> (p: (String, String))
    ensures
        p.0@ == key@,
        p.1@ == value@,
{
    (String::from_str(key), value)
}

fn server_process(server: &ServerConfig, evaluation_id: &String) -> (l: ProcessLaunch)
    ensures
        l@ == server_launch(server@, evaluation_id@),
{
    let mut environment: Vec<(String, String)> = Vec::new();
    environment.push(pair("ROLE", String::from_str("server")));
    environment.push(pair("CRYPTO_MODE", server.key_exchange.to_string()));
    environment.push(pair("CIPHER_SUITES", join_strings(&server.cipher_suites, ",")));
    environment.push(pair("KX_GROUPS", join_strings(&server.kx_groups, ",")));
    environment.push(pair("SECURECRYPT_CONTROL_ADDR", String::from_str("127.0.0.1:9090")));
    let l = ProcessLaunch {
        environment,
        control_addr: String::from_str("127.0.0.1:9090"),
        configuration: ApplicationConfiguration {
            evaluation_id: evaluation_id.clone(),
            crypto_mode: server.key_exchange.to_string(),
            cipher_suites: copy_strings(&server.cipher_suites),
            kx_groups: copy_strings(&server.kx_groups),
            server_addr: None,
            server_name: None,
            listen_addr: Some(String::from_str("0.0.0.0:8443")),
        },
    };
    assert(l@.environment =~= server_launch(server@, evaluation_id@).environment);
    l
}

fn control_address(client: u32) -> (a: String)
    requires
        client <= u32::MAX - 9090,
    ensures
        a@ == client_control_addr(client as int),
{
    let mut a = String::from_str("127.0.0.1:");
    push_decimal(&mut a, (9090 + client) as u64);
    a
}

fn client_process(
    config: &ClientConfig,
    client: u32,
    evaluation_id: &String,
    evaluation_started_at: i64,
    standalone: bool,
) -> (l: ProcessLaunch)
    requires
        client <= u32::MAX - 9090,
    ensures
        l@ == client_launch(
            config@,
            client as int,
            evaluation_id@,
            evaluation_started_at as int,
            standalone,
        ),
{
    let control_addr = control_address(client);
    let mut started_at = String::new();
    push_signed_decimal(&mut started_at, evaluation_started_at);
    assert(Seq::<char>::empty() + signed_decimal(evaluation_started_at as int) =~= signed_decimal(
        evaluation_started_at as int,
    ));
    let mut environment: Vec<(String, String)> = Vec::new();
    environment.push(pair("ROLE", String::from_str("client")));
    environment.push(pair("CRYPTO_MODE", config.key_exchange.to_string()));
    environment.push(pair("CIPHER_SUITES", join_strings(&config.cipher_suites, ",")));
    environment.push(pair("KX_GROUPS", join_strings(&config.kx_groups, ",")));
    environment.push(pair("CLIENT_ID", decimal_string(client as u64)));
    environment.push(pair("EVALUATION_STARTED_AT", started_at));
    environment.push(pair("EVALUATION_ID", evaluation_id.clone()));
    environment.push(pair("SECURECRYPT_CONTROL_ADDR", control_addr.clone()));
    let default_addr = String::from_str("securecrypt-server:8443");
    let server_addr = if standalone && config.server_addr == default_addr {
        String::from_str("127.0.0.1:8443")
    } else {
        config.server_addr.clone()
    };
    let l = ProcessLaunch {
        environment,
        control_addr,
        configuration: ApplicationConfiguration {
            evaluation_id: evaluation_id.clone(),
            crypto_mode: config.key_exchange.to_string(),
            cipher_suites: copy_strings(&config.cipher_suites),
            kx_groups: copy_strings(&config.kx_groups),
            server_addr: Some(server_addr),
            server_name: Some(config.server_name.clone()),
            listen_addr: None,
        },
    };
    assert(l@.environment =~= client_launch(
        config@,
        client as int,
        evaluation_id@,
        evaluation_started_at as int,
        standalone,
    ).environment);
    l
}

/// The launch views of a list of launches.
pub open spec fn launch_views(l: Seq<ProcessLaunch>) -> Seq<LaunchView> {
    l.map_values(|p: ProcessLaunch| p@)
}

/// The event views of a list of events.
pub open spec fn event_views(l: Seq<EvaluationEvent>) -> Seq<EventView> {
    l.map_values(|e: EvaluationEvent| e@)
}

/// The launches of all clients: the client in the `k`-th slot (from 0)
/// is numbered `k + 1` and started with its slot's configuration.
pub open spec fn client_launches(
    configs: Seq<ClientConfigView>,
    evaluation_id: Seq<char>,
    evaluation_started_at: int,
    standalone: bool,
) -> Seq<LaunchView> {
    let slots = config_slots(configs);
    Seq::new(
        slots.len(),
        |k: int|
            client_launch(
                configs[slots[k].0],
                k + 1,
                evaluation_id,
                evaluation_started_at,
                standalone,
            ),
    )
}

/// The `client-started` events: the client numbered `k + 1` is the
/// `k + 1`-th of all the connections that were asked for.
pub open spec fn client_started_events(configs: Seq<ClientConfigView>, evaluation_id: u128) -> Seq<
    EventView,
> {
    Seq::new(
        connection_total(configs),
        |k: int|
            event_view(
                "client-started"@,
                evaluation_id,
                Some((k + 1) as i32),
                k + 1,
                connection_total(configs) as int,
            ),
    )
}

/// Every started client has its own number and its own control address.
pub proof fn law_launched_clients_distinct(
    configs: Seq<ClientConfigView>,
    evaluation_id: Seq<char>,
    evaluation_started_at: int,
    standalone: bool,
)
    ensures
        forall|i: int, j: int|
            0 <= i < j < client_launches(configs, evaluation_id, evaluation_started_at, standalone).len()
                ==> (#[trigger] client_launches(
                configs,
                evaluation_id,
                evaluation_started_at,
                standalone,
            )[i]).control_addr != (#[trigger] client_launches(
                configs,
                evaluation_id,
                evaluation_started_at,
                standalone,
            )[j]).control_addr && client_launches(
                configs,
                evaluation_id,
                evaluation_started_at,
                standalone,
            )[i].environment[4] != client_launches(
                configs,
                evaluation_id,
                evaluation_started_at,
                standalone,
            )[j].environment[4],
{
    let l = client_launches(configs, evaluation_id, evaluation_started_at, standalone);
    assert forall|i: int, j: int| 0 <= i < j < l.len() implies (#[trigger] l[i]).control_addr != (
    #[trigger] l[j]).control_addr && l[i].environment[4] != l[j].environment[4] by {
        let prefix = "127.0.0.1:"@;
        let ai = l[i].control_addr;
        let aj = l[j].control_addr;
        assert(ai == prefix + decimal((9090 + i + 1) as nat));
        assert(aj == prefix + decimal((9090 + j + 1) as nat));
        if ai == aj {
            assert(ai.subrange(prefix.len() as int, ai.len() as int) =~= decimal(
                (9090 + i + 1) as nat,
            ));
            assert(aj.subrange(prefix.len() as int, aj.len() as int) =~= decimal(
                (9090 + j + 1) as nat,
            ));
            crate::text::lemma_decimal_injective((9090 + i + 1) as nat, (9090 + j + 1) as nat);
        }
        assert(l[i].environment[4] == ("CLIENT_ID"@, decimal((i + 1) as nat)));
        assert(l[j].environment[4] == ("CLIENT_ID"@, decimal((j + 1) as nat)));
        if l[i].environment[4] == l[j].environment[4] {
            crate::text::lemma_decimal_injective((i + 1) as nat, (j + 1) as nat);
        }
    }
}

/// Each client slot names one of the configurations and one of its
/// connections.
pub proof fn lemma_slot_positions(configs: Seq<ClientConfigView>)
    ensures
        forall|k: int|
            0 <= k < config_slots(configs).len() ==> 0 <= (#[trigger] config_slots(configs)[k]).0
                < configs.len() && 1 <= config_slots(configs)[k].1
                <= configs[config_slots(configs)[k].0].num_connections,
    decreases configs.len(),
{
    if configs.len() > 0 {
        let init = configs.drop_last();
        lemma_slot_positions(init);
        let a = config_slots(init);
        let n = configs.last().num_connections as nat;
        let b = Seq::new(n, |i: int| ((configs.len() - 1) as int, i + 1));
        assert(config_slots(configs) == a + b);
        assert forall|k: int| 0 <= k < config_slots(configs).len() implies 0 <= (
        #[trigger] config_slots(configs)[k]).0 < configs.len() && 1 <= config_slots(configs)[k].1
            <= configs[config_slots(configs)[k].0].num_connections by {
            if k < a.len() {
                assert(config_slots(configs)[k] == a[k]);
                assert(configs[a[k].0] == init[a[k].0]);
            } else {
                assert(config_slots(configs)[k] == b[k - a.len()]);
            }
        }
    }
}

/// Every started process is configured with the settings of its own
/// configuration: the server with the server configuration, each client
/// with the configuration of its slot. The cipher suites and key exchange
/// groups it is sent are those configured, in order, and its environment
/// lists the same ones, comma-separated, with the same mode and
/// evaluation.
pub proof fn law_launched_configuration(
    server: ServerConfigView,
    configs: Seq<ClientConfigView>,
    evaluation_id: Seq<char>,
    evaluation_started_at: int,
    standalone: bool,
)
    ensures
        server_launch(server, evaluation_id).configuration.cipher_suites == server.cipher_suites,
        server_launch(server, evaluation_id).configuration.kx_groups == server.kx_groups,
        server_launch(server, evaluation_id).configuration.crypto_mode == server.key_exchange,
        server_launch(server, evaluation_id).configuration.evaluation_id == evaluation_id,
        server_launch(server, evaluation_id).environment.contains(
            ("CIPHER_SUITES"@, join_texts(server.cipher_suites, ","@)),
        ),
        server_launch(server, evaluation_id).environment.contains(
            ("KX_GROUPS"@, join_texts(server.kx_groups, ","@)),
        ),
        client_launches(configs, evaluation_id, evaluation_started_at, standalone).len()
            == config_slots(configs).len(),
        forall|k: int|
            0 <= k < config_slots(configs).len() ==> {
                let c = configs[config_slots(configs)[k].0];
                let l = #[trigger] client_launches(
                    configs,
                    evaluation_id,
                    evaluation_started_at,
                    standalone,
                )[k];
                &&& 0 <= config_slots(configs)[k].0 < configs.len()
                &&& l.configuration.cipher_suites == c.cipher_suites
                &&& l.configuration.kx_groups == c.kx_groups
                &&& l.configuration.crypto_mode == c.key_exchange
                &&& l.configuration.server_name == Some(c.server_name)
                &&& l.configuration.evaluation_id == evaluation_id
                &&& l.environment.contains(("CRYPTO_MODE"@, c.key_exchange))
                &&& l.environment.contains(("CIPHER_SUITES"@, join_texts(c.cipher_suites, ","@)))
                &&& l.environment.contains(("KX_GROUPS"@, join_texts(c.kx_groups, ","@)))
                &&& l.environment.contains(("EVALUATION_ID"@, evaluation_id))
            },
{
    lemma_slot_positions(configs);
    let se = server_launch(server, evaluation_id).environment;
    assert(se[2] == ("CIPHER_SUITES"@, join_texts(server.cipher_suites, ","@)));
    assert(se[3] == ("KX_GROUPS"@, join_texts(server.kx_groups, ","@)));
    let ls = client_launches(configs, evaluation_id, evaluation_started_at, standalone);
    assert forall|k: int| 0 <= k < config_slots(configs).len() implies {
        let c = configs[config_slots(configs)[k].0];
        let l = #[trigger] ls[k];
        &&& l.environment.contains(("CRYPTO_MODE"@, c.key_exchange))
        &&& l.environment.contains(("CIPHER_SUITES"@, join_texts(c.cipher_suites, ","@)))
        &&& l.environment.contains(("KX_GROUPS"@, join_texts(c.kx_groups, ","@)))
        &&& l.environment.contains(("EVALUATION_ID"@, evaluation_id))
    } by {
        let e = ls[k].environment;
        assert(e[1] == ("CRYPTO_MODE"@, configs[config_slots(configs)[k].0].key_exchange));
        assert(e[2] == ("CIPHER_SUITES"@, join_texts(configs[config_slots(configs)[k].0].cipher_suites, ","@)));
        assert(e[3] == ("KX_GROUPS"@, join_texts(configs[config_slots(configs)[k].0].kx_groups, ","@)));
        assert(e[6] == ("EVALUATION_ID"@, evaluation_id));
    }
}

/// How the external application is started for evaluation
/// `evaluation_id`, begun at `evaluation_started_at` (milliseconds since
/// the Unix epoch); `standalone` says that no Docker network is there.
pub fn application_launch(
    server: &ServerConfig,
    configs: &Vec<ClientConfig>,
    evaluation_id: u128,
    evaluation_started_at: i64,
    standalone: bool,
) -> (launch: ApplicationLaunch)
    requires
        connection_total(config_views(configs@)) <= u32::MAX - 9090,
    ensures
        launch.server@ == server_launch(server@, uuid_text(evaluation_id)),
        launch_views(launch.clients@) == client_launches(
            config_views(configs@),
            uuid_text(evaluation_id),
            evaluation_started_at as int,
            standalone,
        ),
        event_views(launch.client_events@) == client_started_events(
            config_views(configs@),
            evaluation_id,
        ),
{
    let ghost views = config_views(configs@);
    let id_text = uuid_string(evaluation_id);
    let server_launch = server_process(server, &id_text);
    proof {
        lemma_slots_len(views);
    }
    let mut total: u32 = 0;
    let mut c: usize = 0;
    assert(views.take(0) =~= Seq::<ClientConfigView>::empty());
    while c < configs.len()
        invariant
            c <= configs.len(),
            views == config_views(configs@),
            connection_total(views) <= u32::MAX - 9090,
            total == connection_total(views.take(c as int)),
        decreases configs.len() - c,
    {
        proof {
            lemma_prefix_total(views, c + 1);
            assert(views.take(c + 1).drop_last() =~= views.take(c as int));
        }
        total = total + configs[c].num_connections;
        c = c + 1;
    }
    assert(views.take(configs.len() as int) =~= views);
    let mut clients: Vec<ProcessLaunch> = Vec::new();
    let mut events: Vec<EvaluationEvent> = Vec::new();
    let mut next: u32 = 1;
    c = 0;
    while c < configs.len()
        invariant
            c <= configs.len(),
            views == config_views(configs@),
            connection_total(views) <= u32::MAX - 9090,
            total == connection_total(views),
            next == config_slots(views.take(c as int)).len() + 1,
            clients@.len() == next - 1,
            events@.len() == next - 1,
            forall|k: int|
                0 <= k < next - 1 ==> (#[trigger] clients@[k])@ == client_launch(
                    views[config_slots(views)[k].0],
                    k + 1,
                    id_text@,
                    evaluation_started_at as int,
                    standalone,
                ),
            forall|k: int|
                0 <= k < next - 1 ==> (#[trigger] events@[k])@ == event_view(
                    "client-started"@,
                    evaluation_id,
                    Some((k + 1) as i32),
                    k + 1,
                    total as int,
                ),
        decreases configs.len() - c,
    {
        let n = configs[c].num_connections;
        let ghost base = config_slots(views.take(c as int));
        proof {
            lemma_config_slots_step(views, c as int);
            lemma_slots_len(views.take(c + 1));
            lemma_prefix_total(views, c + 1);
            lemma_slots_prefix(views, c + 1);
            assert(views.take(c + 1)[c as int] == views[c as int]);
        }
        let mut k: u32 = 0;
        while k < n
            invariant
                k <= n,
                c < configs.len(),
                views == config_views(configs@),
                n == views[c as int].num_connections,
                base == config_slots(views.take(c as int)),
                base.len() + n <= connection_total(views),
                connection_total(views) <= u32::MAX - 9090,
                config_slots(views.take(c + 1)) == base + Seq::new(
                    n as nat,
                    |i: int| (c as int, i + 1),
                ),
                forall|j: int|
                    0 <= j < config_slots(views.take(c + 1)).len() ==> config_slots(views)[j]
                        == #[trigger] config_slots(views.take(c + 1))[j],
                total == connection_total(views),
                next == base.len() + k + 1,
                clients@.len() == next - 1,
                events@.len() == next - 1,
                forall|j: int|
                    0 <= j < next - 1 ==> (#[trigger] clients@[j])@ == client_launch(
                        views[config_slots(views)[j].0],
                        j + 1,
                        id_text@,
                        evaluation_started_at as int,
                        standalone,
                    ),
                forall|j: int|
                    0 <= j < next - 1 ==> (#[trigger] events@[j])@ == event_view(
                        "client-started"@,
                        evaluation_id,
                        Some((j + 1) as i32),
                        j + 1,
                        total as int,
                    ),
            decreases n - k,
        {
            let ghost slot = base.len() + k;
            assert(config_slots(views.take(c + 1))[slot] == (c as int, k + 1));
            assert(config_slots(views)[slot] == (c as int, k + 1));
            clients.push(client_process(&configs[c], next, &id_text, evaluation_started_at, standalone));
            events.push(
                evaluation_event("client-started", evaluation_id, Some(next as i32), next as i64, total as i64),
            );
            next = next + 1;
            k = k + 1;
        }
        c = c + 1;
    }
    assert(views.take(configs.len() as int) =~= views);
    let launch = ApplicationLaunch { server: server_launch, clients, client_events: events };
    assert(launch_views(launch.clients@) =~= client_launches(
        views,
        uuid_text(evaluation_id),
        evaluation_started_at as int,
        standalone,
    ));
    assert(event_views(launch.client_events@) =~= client_started_events(views, evaluation_id));
    launch
}

/// The slots of a prefix of the configurations begin the slots of all.
pub proof fn lemma_slots_prefix(configs: Seq<ClientConfigView>, j: int)
    requires
        0 <= j <= configs.len(),
    ensures
        config_slots(configs.take(j)).len() <= config_slots(configs).len(),
        forall|i: int|
            0 <= i < config_slots(configs.take(j)).len() ==> config_slots(configs)[i]
                == #[trigger] config_slots(configs.take(j))[i],
    decreases configs.len(),
{
    if j == configs.len() {
        assert(configs.take(j) =~= configs);
    } else {
        assert(configs.take(j) =~= configs.drop_last().take(j));
        lemma_slots_prefix(configs.drop_last(), j);
    }
}

/// What an evaluation starts from: the configurations and the number of
/// clients that they ask for.
pub struct StartInputs {
    pub server_config: ServerConfig,
    pub client_configs: Vec<ClientConfig>,
    pub num_clients: i32,
}

impl EvaluationSession {
    /// Begins starting an evaluation.
    ///
    /// Fails when one is already running, and then nothing changes.
    /// Otherwise the evaluation is marked as running, and the server and
    /// client configurations are read: it fails without either of them
    /// (the evaluation stays marked as running).
    pub fn prepare_start(&mut self) -> (r: Result<StartInputs, String>)
        ensures
            old(self)@.is_evaluation_running ==> final(self)@ == old(self)@,
            !old(self)@.is_evaluation_running ==> final(self)@ == (SessionView {
                is_evaluation_running: true,
                ..old(self)@
            }),
            match r {
                Ok(inputs) => {
                    &&& !old(self)@.is_evaluation_running
                    &&& old(self)@.server_config == Some(inputs.server_config@)
                    &&& old(self)@.client_configs.len() > 0
                    &&& config_views(inputs.client_configs@) == old(self)@.client_configs
                    &&& inputs.num_clients == client_total(old(self)@.client_configs)
                },
                Err(e) => {
                    ||| old(self)@.is_evaluation_running && e@ == "An evaluation is already running"@
                    ||| !old(self)@.is_evaluation_running && old(self)@.server_config is None && e@
                        == "Server configuration not found"@
                    ||| !old(self)@.is_evaluation_running && old(self)@.server_config is Some
                        && old(self)@.client_configs.len() == 0 && e@
                        == "No client configuration found"@
                },
            },
    {
        match self.begin_evaluation() {
            Ok(()) => {},
            Err(e) => {
                return Err(e);
            },
        }
        let server_config = match self.server_config() {
            Ok(c) => c,
            Err(e) => {
                return Err(e);
            },
        };
        let client_configs = match self.client_configs() {
            Ok(c) => c,
            Err(e) => {
                return Err(e);
            },
        };
        proof {
            crate::evaluation::lemma_single_configuration_fits(config_views(client_configs@));
        }
        let num_clients = client_count(&client_configs);
        Ok(StartInputs { server_config, client_configs, num_clients })
    }

    /// The launch of the external application for the current
    /// evaluation, or the error that there is none.
    pub fn launch_plan(
        &self,
        server: &ServerConfig,
        configs: &Vec<ClientConfig>,
        evaluation_started_at: i64,
        standalone: bool,
    ) -> (r: Result<ApplicationLaunch, String>)
        requires
            connection_total(config_views(configs@)) <= u32::MAX - 9090,
        ensures
            match r {
                Ok(launch) => {
                    &&& self@.evaluation_id is Some
                    &&& launch.server@ == server_launch(
                        server@,
                        uuid_text(self@.evaluation_id->0),
                    )
                    &&& launch_views(launch.clients@) == client_launches(
                        config_views(configs@),
                        uuid_text(self@.evaluation_id->0),
                        evaluation_started_at as int,
                        standalone,
                    )
                    &&& event_views(launch.client_events@) == client_started_events(
                        config_views(configs@),
                        self@.evaluation_id->0,
                    )
                },
                Err(e) => self@.evaluation_id is None && e@ == "No active evaluation ID"@,
            },
    {
        match self.current_evaluation() {
            Some(id) => Ok(application_launch(server, configs, id, evaluation_started_at, standalone)),
            None => Err(String::from_str("No active evaluation ID")),
        }
    }

    /// The `environment-stopping` event that stopping an evaluation
    /// publishes, while one is current.
    pub fn stopping_event(&self, configs: &Vec<ClientConfig>) -> (e: Option<EvaluationEvent>)
        requires
            client_total_fits(config_views(configs@)),
        ensures
            match e {
                Some(event) => self@.evaluation_id is Some && event@ == event_view(
                    "environment-stopping"@,
                    self@.evaluation_id->0,
                    None,
                    0,
                    client_total(config_views(configs@)),
                ),
                None => self@.evaluation_id is None,
            },
    {
        match self.current_evaluation() {
            Some(id) => {
                let total = client_count(configs);
                Some(evaluation_event("environment-stopping", id, None, 0, total as i64))
            },
            None => None,
        }
    }
}

/// How a start that reached the launch of the external application ends.
pub enum StartConclusion {
    /// The launch failed: the environment is torn down with these steps
    /// and the evaluation no longer runs.
    CleanUp(Vec<CleanupStep>),
    /// Resources are to be monitored, but Docker is not available.
    MonitorUnavailable(String),
    /// The environment is ready: monitor its resources where `monitor`
    /// holds, then publish `event`.
    Ready { monitor: bool, event: EvaluationEvent },
}

impl EvaluationSession {
    /// Makes the evaluation just created current, and gives the
    /// `environment-starting` event: none of the `num_clients` clients
    /// runs yet.
    pub fn environment_starting(&mut self, evaluation_id: u128, num_clients: i32) -> (e:
        EvaluationEvent)
        ensures
            final(self)@ == (SessionView { evaluation_id: Some(evaluation_id), ..old(self)@ }),
            e@ == event_view(
                "environment-starting"@,
                evaluation_id,
                None,
                0,
                num_clients as int,
            ),
    {
        self.set_evaluation(evaluation_id);
        evaluation_event("environment-starting", evaluation_id, None, 0, num_clients as i64)
    }

    /// Ends a start once the external application was launched
    /// (`launched`) or failed to launch. On failure the environment of
    /// `configs` is cleaned up and the evaluation ends. Otherwise the
    /// resources are monitored unless the dashboard runs `standalone`
    /// (in-memory storage); monitoring needs Docker, and without it the
    /// start fails and the session stays as it is; else the environment is
    /// ready with all `num_clients` clients.
    pub fn conclude_start(
        &mut self,
        evaluation_id: u128,
        num_clients: i32,
        launched: bool,
        standalone: bool,
        docker_available: bool,
        configs: &Vec<ClientConfig>,
    ) -> (c: StartConclusion)
        requires
            connection_total(config_views(configs@)) <= i32::MAX,
        ensures
            !launched ==> (c matches StartConclusion::CleanUp(steps) && step_views(steps@)
                == cleanup_steps(config_views(configs@), old(self)@.evaluation_id)),
            !launched ==> final(self)@ == (SessionView {
                application_running: false,
                is_evaluation_running: false,
                evaluation_id: None,
                ..old(self)@
            }),
            launched && !standalone && !docker_available ==> (c matches StartConclusion::MonitorUnavailable(
                e,
            ) && e@ == "Docker is unavailable"@),
            launched && (standalone || docker_available) ==> (c matches StartConclusion::Ready {
                monitor,
                event,
            } && monitor == !standalone && event@ == event_view(
                "environment-ready"@,
                evaluation_id,
                None,
                num_clients as int,
                num_clients as int,
            )),
            launched ==> final(self)@ == old(self)@,
    {
        if !launched {
            let steps = self.cleanup_evaluation(configs);
            self.end_evaluation();
            return StartConclusion::CleanUp(steps);
        }
        if !standalone && !docker_available {
            return StartConclusion::MonitorUnavailable(String::from_str("Docker is unavailable"));
        }
        StartConclusion::Ready {
            monitor: !standalone,
            event: evaluation_event(
                "environment-ready",
                evaluation_id,
                None,
                num_clients as i64,
                num_clients as i64,
            ),
        }
    }

    /// Marks the external application as running once all its processes
    /// were started and configured, and gives the `server-started` event;
    /// or the error that no evaluation is current (and then nothing
    /// changes).
    pub fn application_started(&mut self) -> (r: Result<EvaluationEvent, String>)
        ensures
            match r {
                Ok(e) => {
                    &&& old(self)@.evaluation_id is Some
                    &&& e@ == event_view(
                        "server-started"@,
                        old(self)@.evaluation_id->0,
                        None,
                        0,
                        0,
                    )
                    &&& final(self)@ == (SessionView {
                        application_running: true,
                        ..old(self)@
                    })
                },
                Err(e) => old(self)@.evaluation_id is None && final(self)@ == old(self)@ && e@
                    == "No active evaluation ID"@,
            },
    {
        match self.mark_application_running() {
            Ok(id) => Ok(evaluation_event("server-started", id, None, 0, 0)),
            Err(e) => Err(e),
        }
    }
}

/// The most attempts made to reach a started process.
pub const MAX_ATTEMPTS: u32 = 50;

/// The pause after a failed attempt, in milliseconds.
pub const RETRY_DELAY_MS: u64 = 100;

/// What follows an attempt to reach a started process (its port, or its
/// control address).
#[derive(Clone, Copy, Debug, PartialEq, Eq, Structural)]
pub enum RetryStep {
    /// The attempt succeeded.
    Done,
    /// Wait `delay_ms` milliseconds, then try again.
    Retry { delay_ms: u64 },
    /// Wait `delay_ms` milliseconds, then give up.
    GiveUp { delay_ms: u64 },
}

/// What follows attempt number `attempt` (from 1): success ends the
/// attempts; each failure is followed by a pause of 100 ms, and after 50
/// failed attempts the process is given up.
pub fn retry_step(attempt: u32, succeeded: bool) -> (s: RetryStep)
    requires
        1 <= attempt <= MAX_ATTEMPTS,
    ensures
        succeeded ==> s == RetryStep::Done,
        !succeeded && attempt < MAX_ATTEMPTS ==> s == (RetryStep::Retry { delay_ms: RETRY_DELAY_MS }),
        !succeeded && attempt == MAX_ATTEMPTS ==> s == (RetryStep::GiveUp { delay_ms: RETRY_DELAY_MS }),
{
    if succeeded {
        RetryStep::Done
    } else if attempt < MAX_ATTEMPTS {
        RetryStep::Retry { delay_ms: RETRY_DELAY_MS }
    } else {
        RetryStep::GiveUp { delay_ms: RETRY_DELAY_MS }
    }
}

/// The error when the server process does not accept connections.
pub fn server_not_ready() -> (e: String)
    ensures
        e@ == "External application server did not become ready on 127.0.0.1:8443"@,
{
    String::from_str("External application server did not become ready on 127.0.0.1:8443")
}

/// The error when a process cannot be configured at `control_addr`.
pub fn configuration_failed(control_addr: &str) -> (e: String)
    ensures
        e@ == "Could not configure external application at "@ + control_addr@,
{
    let mut e = String::from_str("Could not configure external application at ");
    e.append(control_addr);
    e
}

} // verus!
