//! Evaluation configuration and lifecycle decisions of the dashboard.
//!
//! The dashboard keeps one session: the server and client configuration,
//! whether an evaluation and the external application are running, the
//! current evaluation and the clients that reported completion. The
//! functions here decide each step; the caller performs the processes,
//! network and database work that a step asks for.

use vstd::prelude::*;
use crate::text::{decimal, uuid_text, uuid_string, push_decimal};

verus! {

/// The cryptographic mode of an evaluation, such as `classical` or
/// `post_quantum`.
pub struct CryptoMode(pub String);

impl CryptoMode {
    /// Creates a cryptographic mode from its name.
    pub fn new(mode: String) -> (m: CryptoMode)
        ensures
            m.0@ == mode@,
    {
        CryptoMode(mode)
    }

    /// The name of the mode.
    pub fn to_string(&self) -> (s: String)
        ensures
            s@ == self.0@,
    {
        self.0.clone()
    }
}

/// Server configuration of an evaluation.
pub struct ServerConfig {
    pub key_exchange: CryptoMode,
    pub cipher_suites: Vec<String>,
    pub kx_groups: Vec<String>,
}

/// Client configuration of an evaluation.
pub struct ClientConfig {
    pub key_exchange: CryptoMode,
    pub cipher_suites: Vec<String>,
    pub kx_groups: Vec<String>,
    pub server_addr: String,
    pub server_name: String,
    pub num_connections: u32,
}

/// The texts of a list of strings.
pub open spec fn texts(v: Seq<String>) -> Seq<Seq<char>> {
    v.map_values(|s: String| s@)
}

/// Mathematical form of a server configuration.
pub struct ServerConfigView {
    pub key_exchange: Seq<char>,
    pub cipher_suites: Seq<Seq<char>>,
    pub kx_groups: Seq<Seq<char>>,
}

/// Mathematical form of a client configuration.
pub struct ClientConfigView {
    pub key_exchange: Seq<char>,
    pub cipher_suites: Seq<Seq<char>>,
    pub kx_groups: Seq<Seq<char>>,
    pub server_addr: Seq<char>,
    pub server_name: Seq<char>,
    pub num_connections: u32,
}

impl View for ServerConfig {
    type V = ServerConfigView;

    open spec fn view(&self) -> ServerConfigView {
        ServerConfigView {
            key_exchange: self.key_exchange.0@,
            cipher_suites: texts(self.cipher_suites@),
            kx_groups: texts(self.kx_groups@),
        }
    }
}

impl View for ClientConfig {
    type V = ClientConfigView;

    open spec fn view(&self) -> ClientConfigView {
        ClientConfigView {
            key_exchange: self.key_exchange.0@,
            cipher_suites: texts(self.cipher_suites@),
            kx_groups: texts(self.kx_groups@),
            server_addr: self.server_addr@,
            server_name: self.server_name@,
            num_connections: self.num_connections,
        }
    }
}

/// Copies a list of strings.
pub fn copy_strings(v: &Vec<String>) -> (c: Vec<String>)
    ensures
        texts(c@) == texts(v@),
{
    let mut c: Vec<String> = Vec::new();
    let mut i: usize = 0;
    while i < v.len()
        invariant
            i <= v.len(),
            c.len() == i,
            forall|j: int| 0 <= j < i ==> (#[trigger] c@[j])@ == v@[j]@,
        decreases v.len() - i,
    {
        c.push(v[i].clone());
        i = i + 1;
    }
    assert(texts(c@) =~= texts(v@));
    c
}

impl ServerConfig {
    /// A copy of the configuration.
    pub fn copy(&self) -> (c: ServerConfig)
        ensures
            c@ == self@,
    {
        ServerConfig {
            key_exchange: CryptoMode(self.key_exchange.0.clone()),
            cipher_suites: copy_strings(&self.cipher_suites),
            kx_groups: copy_strings(&self.kx_groups),
        }
    }
}

impl ClientConfig {
    /// A copy of the configuration.
    pub fn copy(&self) -> (c: ClientConfig)
        ensures
            c@ == self@,
    {
        ClientConfig {
            key_exchange: CryptoMode(self.key_exchange.0.clone()),
            cipher_suites: copy_strings(&self.cipher_suites),
            kx_groups: copy_strings(&self.kx_groups),
            server_addr: self.server_addr.clone(),
            server_name: self.server_name.clone(),
            num_connections: self.num_connections,
        }
    }
}

/// The configurations of a list, in mathematical form.
pub open spec fn config_views(s: Seq<ClientConfig>) -> Seq<ClientConfigView> {
    s.map_values(|x: ClientConfig| x@)
}

/// Copies a list of client configurations.
pub fn copy_client_configs(v: &Vec<ClientConfig>) -> (c: Vec<ClientConfig>)
    ensures
        config_views(c@) == config_views(v@),
{
    let mut c: Vec<ClientConfig> = Vec::new();
    let mut i: usize = 0;
    while i < v.len()
        invariant
            i <= v.len(),
            c.len() == i,
            forall|j: int| 0 <= j < i ==> (#[trigger] c@[j])@ == v@[j]@,
        decreases v.len() - i,
    {
        c.push(v[i].copy());
        i = i + 1;
    }
    assert(config_views(c@) =~= config_views(v@));
    c
}

/// The number of clients that a list of configurations asks for, each
/// count taken as an `i32` (a count above `i32::MAX` wraps to a negative
/// value, as the cast to `i32` does).
pub open spec fn client_total(configs: Seq<ClientConfigView>) -> int
    decreases configs.len(),
{
    if configs.len() == 0 {
        0
    } else {
        client_total(configs.drop_last()) + (configs.last().num_connections as i32)
    }
}

/// Every partial total of the client counts fits in an `i32`.
pub open spec fn client_total_fits(configs: Seq<ClientConfigView>) -> bool {
    forall|j: int|
        0 <= j <= configs.len() ==> i32::MIN <= #[trigger] client_total(configs.take(j))
            <= i32::MAX
}

/// The total number of clients, summed in `i32`; `None` where a partial
/// sum leaves the `i32` range.
pub fn checked_client_total(configs: &Vec<ClientConfig>) -> (total: Option<i32>)
    ensures
        match total {
            Some(t) => client_total_fits(config_views(configs@)) && t
                == client_total(config_views(configs@)),
            None => !client_total_fits(config_views(configs@)),
        },
{
    let ghost views = config_views(configs@);
    let mut total: i32 = 0;
    let mut i: usize = 0;
    assert(views.take(0) =~= Seq::<ClientConfigView>::empty());
    while i < configs.len()
        invariant
            i <= configs.len(),
            views == config_views(configs@),
            total == client_total(views.take(i as int)),
            forall|j: int|
                0 <= j <= i ==> i32::MIN <= #[trigger] client_total(views.take(j)) <= i32::MAX,
        decreases configs.len() - i,
    {
        assert(views.take(i + 1).drop_last() =~= views.take(i as int));
        assert(views.take(i + 1).last() == configs@[i as int]@);
        let n = configs[i].num_connections as i32;
        match total.checked_add(n) {
            Some(t) => {
                total = t;
            },
            None => {
                assert(!(i32::MIN <= client_total(views.take(i + 1)) <= i32::MAX));
                return None;
            },
        }
        i = i + 1;
    }
    assert(views.take(configs.len() as int) =~= views);
    Some(total)
}

/// The total of at most one configuration always fits.
pub proof fn lemma_single_configuration_fits(configs: Seq<ClientConfigView>)
    requires
        configs.len() <= 1,
    ensures
        client_total_fits(configs),
{
    assert forall|j: int| 0 <= j <= configs.len() implies i32::MIN <= #[trigger] client_total(
        configs.take(j),
    ) <= i32::MAX by {
        let t = configs.take(j);
        if t.len() == 1 {
            assert(t.drop_last() =~= Seq::<ClientConfigView>::empty());
            assert(client_total(t.drop_last()) == 0);
            assert(client_total(t) == (t.last().num_connections as i32));
        } else {
            assert(client_total(t) == 0);
        }
    }
}

/// The total number of clients, for configurations whose total fits.
pub fn client_count(configs: &Vec<ClientConfig>) -> (total: i32)
    requires
        client_total_fits(config_views(configs@)),
    ensures
        total == client_total(config_views(configs@)),
{
    match checked_client_total(configs) {
        Some(t) => t,
        None => 0,
    }
}

/// A lifecycle event of an evaluation, published to dashboard clients.
pub struct EvaluationEvent {
    pub event_type: String,
    pub evaluation_id: u128,
    pub client_id: Option<i32>,
    pub completed: i64,
    pub total: i64,
}

/// Mathematical form of an event.
pub struct EventView {
    pub event_type: Seq<char>,
    pub evaluation_id: u128,
    pub client_id: Option<i32>,
    pub completed: int,
    pub total: int,
}

impl View for EvaluationEvent {
    type V = EventView;

    open spec fn view(&self) -> EventView {
        EventView {
            event_type: self.event_type@,
            evaluation_id: self.evaluation_id,
            client_id: self.client_id,
            completed: self.completed as int,
            total: self.total as int,
        }
    }
}

pub open spec fn event_view(
    event_type: Seq<char>,
    evaluation_id: u128,
    client_id: Option<i32>,
    completed: int,
    total: int,
) -> EventView {
    EventView { event_type, evaluation_id, client_id, completed, total }
}

/// Builds an evaluation lifecycle event.
pub fn evaluation_event(
    event_type: &str,
    evaluation_id: u128,
    client_id: Option<i32>,
    completed: i64,
    total: i64,
) -> (e: EvaluationEvent)
    ensures
        e@ == event_view(event_type@, evaluation_id, client_id, completed as int, total as int),
{
    EvaluationEvent {
        event_type: String::from_str(event_type),
        evaluation_id,
        client_id,
        completed,
        total,
    }
}

/// The dashboard's evaluation session.
pub struct EvaluationSession {
    server_config: Option<ServerConfig>,
    client_configs: Vec<ClientConfig>,
    is_evaluation_running: bool,
    application_running: bool,
    evaluation_id: Option<u128>,
    completed_clients: Vec<(u128, i32)>,
}

/// Mathematical form of the session.
pub struct SessionView {
    pub server_config: Option<ServerConfigView>,
    pub client_configs: Seq<ClientConfigView>,
    pub is_evaluation_running: bool,
    pub application_running: bool,
    pub evaluation_id: Option<u128>,
    /// The (evaluation, client) pairs that reported completion, each once.
    pub completed_clients: Seq<(u128, i32)>,
}

pub open spec fn server_view(c: Option<ServerConfig>) -> Option<ServerConfigView> {
    match c {
        Some(x) => Some(x@),
        None => None,
    }
}

impl View for EvaluationSession {
    type V = SessionView;

    closed spec fn view(&self) -> SessionView {
        SessionView {
            server_config: server_view(self.server_config),
            client_configs: config_views(self.client_configs@),
            is_evaluation_running: self.is_evaluation_running,
            application_running: self.application_running,
            evaluation_id: self.evaluation_id,
            completed_clients: self.completed_clients@,
        }
    }
}

/// What became of a report that a client finished.
pub enum ClientFinished {
    /// The report is not about the current evaluation.
    Rejected,
    /// The report was recorded: the number of distinct clients of the
    /// evaluation that finished, the number expected, and whether the
    /// evaluation is now to be stopped.
    Recorded { completed: i32, expected: i32, stop: bool },
}

/// The number of recorded completions of evaluation `e`.
pub open spec fn completions_of(completed: Seq<(u128, i32)>, e: u128) -> nat
    decreases completed.len(),
{
    if completed.len() == 0 {
        0
    } else {
        completions_of(completed.drop_last(), e) + if completed.last().0 == e {
            1nat
        } else {
            0nat
        }
    }
}

/// The completions after a report: the pair is added unless recorded.
pub open spec fn completed_after(completed: Seq<(u128, i32)>, e: u128, c: i32) -> Seq<(u128, i32)> {
    if completed.contains((e, c)) {
        completed
    } else {
        completed.push((e, c))
    }
}

/// The completions counted for an evaluation are the recorded pairs of
/// that evaluation and no others: a report about another evaluation never
/// changes the count, and a new report about it adds one.
pub proof fn law_completions_of_own_evaluation(completed: Seq<(u128, i32)>, e: u128)
    ensures
        completions_of(completed, e) == completed.filter(|p: (u128, i32)| p.0 == e).len(),
        forall|e2: u128, c: i32|
            e2 != e ==> #[trigger] completions_of(completed.push((e2, c)), e) == completions_of(
                completed,
                e,
            ),
        forall|c: i32| #[trigger] completions_of(completed.push((e, c)), e) == completions_of(completed, e)
            + 1,
    decreases completed.len(),
{
    reveal(Seq::filter);
    if completed.len() > 0 {
        law_completions_of_own_evaluation(completed.drop_last(), e);
    }
    assert forall|e2: u128, c: i32| e2 != e implies #[trigger] completions_of(
        completed.push((e2, c)),
        e,
    ) == completions_of(completed, e) by {
        assert(completed.push((e2, c)).drop_last() =~= completed);
    }
    assert forall|c: i32| #[trigger] completions_of(completed.push((e, c)), e) == completions_of(
        completed,
        e,
    ) + 1 by {
        assert(completed.push((e, c)).drop_last() =~= completed);
    }
}

/// A client that reports completion twice is counted once: the second
/// report leaves the completions as the first one made them.
pub proof fn law_report_counted_once(completed: Seq<(u128, i32)>, e: u128, c: i32)
    ensures
        completed_after(completed_after(completed, e, c), e, c) == completed_after(completed, e, c),
        completed_after(completed, e, c).contains((e, c)),
{
    if !completed.contains((e, c)) {
        assert(completed.push((e, c))[completed.len() as int] == (e, c));
    }
}

/// The outcome of a recorded report, given the completions after it.
pub open spec fn finished_outcome(
    completed: Seq<(u128, i32)>,
    e: u128,
    configs: Seq<ClientConfigView>,
) -> ClientFinished {
    let count = completions_of(completed, e) as i32;
    let expected = client_total(configs) as i32;
    ClientFinished::Recorded { completed: count, expected, stop: expected > 0 && count >= expected }
}

impl EvaluationSession {
    #[verifier::type_invariant]
    closed spec fn inv(&self) -> bool {
        &&& self.completed_clients@.no_duplicates()
        &&& self.client_configs@.len() <= 1
    }

    /// A new session: nothing configured, nothing running.
    pub fn new() -> (s: EvaluationSession)
        ensures
            s@.server_config is None,
            s@.client_configs.len() == 0,
            !s@.is_evaluation_running,
            !s@.application_running,
            s@.evaluation_id is None,
            s@.completed_clients.len() == 0,
    {
        EvaluationSession {
            server_config: None,
            client_configs: Vec::new(),
            is_evaluation_running: false,
            application_running: false,
            evaluation_id: None,
            completed_clients: Vec::new(),
        }
    }

    /// Whether an evaluation is running.
    pub fn is_evaluation_running(&self) -> (b: bool)
        ensures
            b == self@.is_evaluation_running,
    {
        self.is_evaluation_running
    }

    /// Whether the external application is running.
    pub fn application_status(&self) -> (b: bool)
        ensures
            b == self@.application_running,
    {
        self.application_running
    }

    /// Whether a client configuration is available.
    pub fn client_status(&self) -> (b: bool)
        ensures
            b == (self@.client_configs.len() > 0),
    {
        self.client_configs.len() > 0
    }

    /// The current evaluation, if any.
    pub fn current_evaluation(&self) -> (id: Option<u128>)
        ensures
            id == self@.evaluation_id,
    {
        self.evaluation_id
    }

    /// Stores the server configuration, unless an evaluation is running;
    /// returns whether it was stored.
    pub fn save_server_config(&mut self, config: ServerConfig) -> (saved: bool)
        ensures
            saved == !old(self)@.is_evaluation_running,
            saved ==> final(self)@ == (SessionView {
                server_config: Some(config@),
                ..old(self)@
            }),
            !saved ==> final(self)@ == old(self)@,
    {
        proof {
            use_type_invariant(&*self);
        }
        if self.is_evaluation_running {
            return false;
        }
        self.server_config = Some(config);
        true
    }

    /// Replaces the client configurations by `config`, unless an
    /// evaluation is running; returns whether it was stored.
    pub fn save_client_config(&mut self, config: ClientConfig) -> (saved: bool)
        ensures
            saved == !old(self)@.is_evaluation_running,
            saved ==> final(self)@ == (SessionView {
                client_configs: seq![config@],
                ..old(self)@
            }),
            !saved ==> final(self)@ == old(self)@,
    {
        proof {
            use_type_invariant(&*self);
        }
        if self.is_evaluation_running {
            return false;
        }
        let ghost cv = config@;
        let mut configs: Vec<ClientConfig> = Vec::new();
        configs.push(config);
        self.client_configs = configs;
        assert(config_views(self.client_configs@) =~= seq![cv]);
        true
    }

    /// The server configuration, or the error that none is defined.
    pub fn server_config(&self) -> (r: Result<ServerConfig, String>)
        ensures
            match r {
                Ok(c) => self@.server_config == Some(c@),
                Err(e) => self@.server_config is None && e@ == "Server configuration not found"@,
            },
    {
        match &self.server_config {
            Some(c) => Ok(c.copy()),
            None => Err(String::from_str("Server configuration not found")),
        }
    }

    /// The client configurations, or the error that none is defined.
    pub fn client_configs(&self) -> (r: Result<Vec<ClientConfig>, String>)
        ensures
            self@.client_configs.len() <= 1,
            match r {
                Ok(c) => self@.client_configs.len() > 0 && config_views(c@)
                    == self@.client_configs,
                Err(e) => self@.client_configs.len() == 0 && e@
                    == "No client configuration found"@,
            },
    {
        proof {
            use_type_invariant(self);
        }
        if self.client_configs.len() == 0 {
            return Err(String::from_str("No client configuration found"));
        }
        Ok(copy_client_configs(&self.client_configs))
    }

    /// Marks an evaluation as running, unless one already is.
    pub fn begin_evaluation(&mut self) -> (r: Result<(), String>)
        ensures
            match r {
                Ok(()) => !old(self)@.is_evaluation_running && final(self)@ == (SessionView {
                    is_evaluation_running: true,
                    ..old(self)@
                }),
                Err(e) => old(self)@.is_evaluation_running && final(self)@ == old(self)@ && e@
                    == "An evaluation is already running"@,
            },
    {
        proof {
            use_type_invariant(&*self);
        }
        if self.is_evaluation_running {
            return Err(String::from_str("An evaluation is already running"));
        }
        self.is_evaluation_running = true;
        Ok(())
    }

    /// Records the identifier of the evaluation that was created.
    pub fn set_evaluation(&mut self, id: u128)
        ensures
            final(self)@ == (SessionView { evaluation_id: Some(id), ..old(self)@ }),
    {
        proof {
            use_type_invariant(&*self);
        }
        self.evaluation_id = Some(id);
    }

    /// The text of the current evaluation identifier, or the error that
    /// there is none.
    pub fn evaluation_id_text(&self) -> (r: Result<String, String>)
        ensures
            match r {
                Ok(t) => self@.evaluation_id is Some && t@ == uuid_text(self@.evaluation_id->0),
                Err(e) => self@.evaluation_id is None && e@ == "No active evaluation ID"@,
            },
    {
        match self.evaluation_id {
            Some(id) => Ok(uuid_string(id)),
            None => Err(String::from_str("No active evaluation ID")),
        }
    }

    /// Marks the external application as running once it was started;
    /// returns the current evaluation, or the error that there is none
    /// (and then nothing changes).
    pub fn mark_application_running(&mut self) -> (r: Result<u128, String>)
        ensures
            match r {
                Ok(id) => old(self)@.evaluation_id == Some(id) && final(self)@ == (SessionView {
                    application_running: true,
                    ..old(self)@
                }),
                Err(e) => old(self)@.evaluation_id is None && final(self)@ == old(self)@ && e@
                    == "No active evaluation ID"@,
            },
    {
        proof {
            use_type_invariant(&*self);
        }
        match self.evaluation_id {
            Some(id) => {
                self.application_running = true;
                Ok(id)
            },
            None => Err(String::from_str("No active evaluation ID")),
        }
    }

    /// Marks the external application as stopped.
    pub fn mark_application_stopped(&mut self)
        ensures
            final(self)@ == (SessionView { application_running: false, ..old(self)@ }),
    {
        proof {
            use_type_invariant(&*self);
        }
        self.application_running = false;
    }

    /// Forgets the current evaluation.
    pub fn clear_evaluation(&mut self)
        ensures
            final(self)@ == (SessionView { evaluation_id: None, ..old(self)@ }),
    {
        proof {
            use_type_invariant(&*self);
        }
        self.evaluation_id = None;
    }

    /// Marks the evaluation as no longer running.
    pub fn end_evaluation(&mut self)
        ensures
            final(self)@ == (SessionView { is_evaluation_running: false, ..old(self)@ }),
    {
        proof {
            use_type_invariant(&*self);
        }
        self.is_evaluation_running = false;
    }

    /// Resets the configuration: no server or client configuration and
    /// no current evaluation.
    pub fn reset_configuration(&mut self)
        ensures
            final(self)@ == (SessionView {
                server_config: None,
                client_configs: Seq::empty(),
                evaluation_id: None,
                ..old(self)@
            }),
    {
        proof {
            use_type_invariant(&*self);
        }
        self.server_config = None;
        self.client_configs = Vec::new();
        self.evaluation_id = None;
        assert(config_views(self.client_configs@) =~= Seq::<ClientConfigView>::empty());
    }

    /// Records that a client finished an evaluation.
    ///
    /// A report about another evaluation than the current one is
    /// rejected. Otherwise the (evaluation, client) pair is recorded once,
    /// and the evaluation is to be stopped when clients are expected and
    /// at least as many distinct clients of it finished.
    pub fn client_finished(&mut self, evaluation_id: u128, client_id: i32) -> (r: ClientFinished)
        ensures
            old(self)@.evaluation_id != Some(evaluation_id) ==> (r is Rejected) && final(self)@
                == old(self)@,
            old(self)@.evaluation_id == Some(evaluation_id) ==> final(self)@ == (SessionView {
                completed_clients: completed_after(
                    old(self)@.completed_clients,
                    evaluation_id,
                    client_id,
                ),
                ..old(self)@
            }),
            final(self)@.completed_clients.no_duplicates(),
            old(self)@.evaluation_id == Some(evaluation_id) ==> r == finished_outcome(
                completed_after(old(self)@.completed_clients, evaluation_id, client_id),
                evaluation_id,
                old(self)@.client_configs,
            ),
    {
        proof {
            use_type_invariant(&*self);
        }
        if self.evaluation_id != Some(evaluation_id) {
            return ClientFinished::Rejected;
        }
        proof {
            lemma_single_configuration_fits(self@.client_configs);
        }
        let expected = client_count(&self.client_configs);
        let mut present = false;
        let mut i: usize = 0;
        while i < self.completed_clients.len()
            invariant
                i <= self.completed_clients.len(),
                present == exists|j: int|
                    0 <= j < i && self.completed_clients@[j] == (evaluation_id, client_id),
            decreases self.completed_clients.len() - i,
        {
            let (e, c) = self.completed_clients[i];
            if e == evaluation_id && c == client_id {
                present = true;
            }
            i = i + 1;
        }
        let ghost before = self.completed_clients@;
        if !present {
            proof {
                assert(!before.contains((evaluation_id, client_id)));
                assert forall|a: int, b: int|
                    0 <= a < b < before.push((evaluation_id, client_id)).len() implies before.push(
                    (evaluation_id, client_id),
                )[a] != before.push((evaluation_id, client_id))[b] by {
                    if b == before.len() {
                        assert(before.contains(before[a]));
                    }
                }
            }
            let mut list: Vec<(u128, i32)> = Vec::new();
            std::mem::swap(&mut list, &mut self.completed_clients);
            list.push((evaluation_id, client_id));
            self.completed_clients = list;
        }
        proof {
            use_type_invariant(&*self);
        }
        let ghost completed = self.completed_clients@;
        let mut count: usize = 0;
        let mut k: usize = 0;
        while k < self.completed_clients.len()
            invariant
                k <= self.completed_clients.len(),
                completed == self.completed_clients@,
                count == completions_of(completed.take(k as int), evaluation_id),
                count <= k,
            decreases self.completed_clients.len() - k,
        {
            assert(completed.take(k + 1).drop_last() =~= completed.take(k as int));
            if self.completed_clients[k].0 == evaluation_id {
                count = count + 1;
            }
            k = k + 1;
        }
        assert(completed.take(completed.len() as int) =~= completed);
        let count = count as i32;
        ClientFinished::Recorded { completed: count, expected, stop: expected > 0 && count >= expected }
    }
}

/// The client slots of a list of configurations: for each configuration
/// in order, its position and the local client numbers 1 to its number of
/// connections.
pub open spec fn config_slots(configs: Seq<ClientConfigView>) -> Seq<(int, int)>
    decreases configs.len(),
{
    if configs.len() == 0 {
        Seq::empty()
    } else {
        config_slots(configs.drop_last()) + Seq::new(
            configs.last().num_connections as nat,
            |i: int| ((configs.len() - 1) as int, i + 1),
        )
    }
}

pub proof fn lemma_config_slots_step(configs: Seq<ClientConfigView>, c: int)
    requires
        0 <= c < configs.len(),
    ensures
        config_slots(configs.take(c + 1)) == config_slots(configs.take(c)) + Seq::new(
            configs[c].num_connections as nat,
            |i: int| (c, i + 1),
        ),
{
    assert(configs.take(c + 1).drop_last() =~= configs.take(c));
    assert(configs.take(c + 1).last() == configs[c]);
}

/// The name of the container of client `id`.
pub open spec fn client_container_name(id: int) -> Seq<char> {
    "securecrypt-client-"@ + decimal(id as nat)
}

/// A Docker container whose resource usage is monitored: the role says
/// what it is for, and a client container has its client number.
#[derive(Clone, Debug)]
pub struct MonitoredContainer {
    pub name: String,
    pub role: String,
    pub client_id: Option<i32>,
}

impl View for MonitoredContainer {
    type V = (Seq<char>, Seq<char>, Option<i32>);

    open spec fn view(&self) -> (Seq<char>, Seq<char>, Option<i32>) {
        (self.name@, self.role@, self.client_id)
    }
}

/// The monitored containers of a list of configurations: the server,
/// then one client container per slot.
pub open spec fn monitored_views(configs: Seq<ClientConfigView>) -> Seq<
    (Seq<char>, Seq<char>, Option<i32>),
> {
    seq![("securecrypt-server"@, "server"@, None::<i32>)] + config_slots(configs).map_values(
        |s: (int, int)| (client_container_name(s.1), "client"@, Some(s.1 as i32)),
    )
}

/// The name of the container of client `id`.
pub(crate) fn client_container(id: u32) -> (name: String)
    ensures
        name@ == client_container_name(id as int),
{
    let mut name = String::from_str("securecrypt-client-");
    push_decimal(&mut name, id as u64);
    name
}

/// The containers monitored during an evaluation.
pub fn monitored_containers(configs: &Vec<ClientConfig>) -> (containers: Vec<MonitoredContainer>)
    ensures
        containers@.map_values(|c: MonitoredContainer| c@) == monitored_views(config_views(configs@)),
{
    let ghost views = config_views(configs@);
    let mut containers: Vec<MonitoredContainer> = Vec::new();
    containers.push(
        MonitoredContainer {
            name: String::from_str("securecrypt-server"),
            role: String::from_str("server"),
            client_id: None,
        },
    );
    let mut c: usize = 0;
    assert(views.take(0) =~= Seq::<ClientConfigView>::empty());
    while c < configs.len()
        invariant
            c <= configs.len(),
            views == config_views(configs@),
            containers@.map_values(|m: MonitoredContainer| m@) =~= seq![
                ("securecrypt-server"@, "server"@, None::<i32>),
            ] + config_slots(views.take(c as int)).map_values(
                |s: (int, int)| (client_container_name(s.1), "client"@, Some(s.1 as i32)),
            ),
        decreases configs.len() - c,
    {
        let n = configs[c].num_connections;
        proof {
            lemma_config_slots_step(views, c as int);
        }
        let ghost base = containers@.map_values(|m: MonitoredContainer| m@);
        let mut k: u32 = 0;
        while k < n
            invariant
                k <= n,
                c < configs.len(),
                views == config_views(configs@),
                n == views[c as int].num_connections,
                containers@.map_values(|m: MonitoredContainer| m@) =~= base + Seq::new(
                    k as nat,
                    |i: int| (client_container_name(i + 1), "client"@, Some((i + 1) as i32)),
                ),
            decreases n - k,
        {
            let id = k + 1;
            let ghost before = containers@;
            let m = MonitoredContainer {
                name: client_container(id),
                role: String::from_str("client"),
                client_id: Some(id as i32),
            };
            assert(m@ == (client_container_name(k + 1), "client"@, Some((k + 1) as i32)));
            containers.push(m);
            assert(containers@ =~= before.push(m));
            assert(containers@.map_values(|m: MonitoredContainer| m@) =~= before.map_values(
                |m: MonitoredContainer| m@,
            ).push(m@));
            assert(base + Seq::new(
                (k + 1) as nat,
                |i: int| (client_container_name(i + 1), "client"@, Some((i + 1) as i32)),
            ) =~= (base + Seq::new(
                k as nat,
                |i: int| (client_container_name(i + 1), "client"@, Some((i + 1) as i32)),
            )).push(m@));
            k = k + 1;
        }
        proof {
            let full = Seq::new(
                n as nat,
                |i: int| (client_container_name(i + 1), "client"@, Some((i + 1) as i32)),
            );
            assert(containers@.map_values(|m: MonitoredContainer| m@) =~= base + full);
            assert(Seq::new(n as nat, |i: int| (c as int, i + 1)).map_values(
                |s: (int, int)| (client_container_name(s.1), "client"@, Some(s.1 as i32)),
            ) =~= full);
            assert((config_slots(views.take(c as int)) + Seq::new(
                n as nat,
                |i: int| (c as int, i + 1),
            )).map_values(
                |s: (int, int)| (client_container_name(s.1), "client"@, Some(s.1 as i32)),
            ) =~= config_slots(views.take(c as int)).map_values(
                |s: (int, int)| (client_container_name(s.1), "client"@, Some(s.1 as i32)),
            ) + full);
        }
        c = c + 1;
    }
    assert(views.take(configs.len() as int) =~= views);
    containers
}

} // verus!
