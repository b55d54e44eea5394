//! The proxy: the servers that it is connected to, and what it makes of them.

use vstd::prelude::*;

use crate::config::{
    http_or_default, text_or_none, McpConfig, ServerConfig, StdioTransportConfig, StdioView,
};
use crate::description_enricher::{is_described, DescriptionEnricherMiddleware};
use crate::error::{ProxyError, ProxyErrorView, RpcError, RpcErrorKind};
use crate::json::{law_first_named, JsonValue, JsonView};
use crate::middleware::{
    all_listed_to, law_enriched_prompts, law_enriched_resources, law_enriched_tools,
    law_prompts_keep_their_names, law_resources_keep_their_names,
    law_tools_keep_their_names, list_prompts_through, list_resources_through, list_tools_through,
    prompts_through, resources_through, tools_through, ProxyMiddleware,
};
use crate::model::{
    clone_tools, prompts_view, resources_view, tools_view, Prompt, PromptView, Resource,
    ResourceView, Tool, ToolView,
};
use crate::naming::{
    extract_server_and_name, is_plain, law_parting_is_undone, law_prefix_is_undone, parted,
    prefix_with_server, prefixed, separator, server_of,
};
use crate::text::{
    contains_text, decimal, decimal_text, joined, occurs_at, occurs_in, same_text, texts,
};
use crate::tool_search::{
    index_updated, law_exposed_tools_are_shown, law_results_are_hits, law_results_are_limited,
    may_hit, search_tool_name, tools_of_hits, IndexReport, ToolSearchMiddleware,
};

verus! {

/// A server that the proxy is connected to, and what it offers.
#[derive(Clone, Debug)]
pub struct ConnectedServer {
    pub name: String,
    pub tools: Vec<Tool>,
    pub prompts: Vec<Prompt>,
    pub resources: Vec<Resource>,
}

/// A connected server, with its texts as characters.
#[verifier::ext_equal]
pub struct ConnectedServerView {
    pub name: Seq<char>,
    pub tools: Seq<ToolView>,
    pub prompts: Seq<PromptView>,
    pub resources: Seq<ResourceView>,
}

impl View for ConnectedServer {
    type V = ConnectedServerView;

    open spec fn view(&self) -> ConnectedServerView {
        ConnectedServerView {
            name: self.name@,
            tools: tools_view(self.tools@),
            prompts: prompts_view(self.prompts@),
            resources: resources_view(self.resources@),
        }
    }
}

/// The connected servers of a list, with their texts as characters.
pub open spec fn servers_view(servers: Seq<ConnectedServer>) -> Seq<ConnectedServerView> {
    servers.map_values(|server: ConnectedServer| server@)
}

/// A server of the given name is among the servers.
pub open spec fn has_server(servers: Seq<ConnectedServerView>, name: Seq<char>) -> bool {
    exists|i: int| 0 <= i < servers.len() && (#[trigger] servers[i]).name == name
}

/// No two servers have one name.
pub open spec fn unique_servers(servers: Seq<ConnectedServerView>) -> bool {
    forall|i: int, j: int|
        0 <= i < j < servers.len() ==> (#[trigger] servers[i]).name != (#[trigger] servers[j]).name
}

/// The servers with one more: in place of the one that has its name, else behind
/// the others.
pub open spec fn with_server(
    servers: Seq<ConnectedServerView>,
    server: ConnectedServerView,
) -> Seq<ConnectedServerView>
    decreases servers.len(),
{
    if servers.len() == 0 {
        seq![server]
    } else if servers.first().name == server.name {
        seq![server] + servers.drop_first()
    } else {
        seq![servers.first()] + with_server(servers.drop_first(), server)
    }
}

/// The names of the servers whose processes run, without the given one.
pub open spec fn without_process(processes: Seq<Seq<char>>, name: Seq<char>) -> Seq<Seq<char>> {
    processes.filter(|process: Seq<char>| process != name)
}

/// The proxy.
pub struct ProxyServer {
    config: McpConfig,
    servers: Vec<ConnectedServer>,
    processes: Vec<String>,
    middleware: Vec<ProxyMiddleware>,
}

/// A server takes the first place where one of its name stands, or comes behind
/// the others.
proof fn lemma_with_server(
    servers: Seq<ConnectedServerView>,
    server: ConnectedServerView,
    at: int,
)
    requires
        0 <= at <= servers.len(),
        at < servers.len() ==> servers[at].name == server.name,
        forall|i: int| 0 <= i < at ==> (#[trigger] servers[i]).name != server.name,
    ensures
        with_server(servers, server) == if at < servers.len() {
            servers.update(at, server)
        } else {
            servers.push(server)
        },
    decreases servers.len(),
{
    if servers.len() == 0 {
        assert(servers.push(server) =~= seq![server]);
    } else if at == 0 {
        assert(seq![server] + servers.drop_first() =~= servers.update(0, server));
    } else {
        let rest = servers.drop_first();
        assert forall|i: int| 0 <= i < at - 1 implies (#[trigger] rest[i]).name != server.name by {
            assert(rest[i] == servers[i + 1]);
        }
        lemma_with_server(rest, server, at - 1);
        if at < servers.len() {
            assert(seq![servers.first()] + rest.update(at - 1, server) =~= servers.update(
                at,
                server,
            ));
        } else {
            assert(seq![servers.first()] + rest.push(server) =~= servers.push(server));
        }
    }
}

/// The position of the server that has a name, or the length of the list.
fn find_server(servers: &Vec<ConnectedServer>, name: &str) -> (at: usize)
    ensures
        at <= servers@.len(),
        at < servers@.len() ==> servers@[at as int].name@ == name@,
        forall|i: int| 0 <= i < at ==> (#[trigger] servers@[i]).name@ != name@,
        has_server(servers_view(servers@), name@) == (at < servers@.len()),
{
    let ghost seen = servers_view(servers@);
    let mut at: usize = 0;
    while at < servers.len()
        invariant
            at <= servers.len(),
            seen == servers_view(servers@),
            forall|i: int| 0 <= i < at ==> (#[trigger] servers@[i]).name@ != name@,
        decreases servers.len() - at,
    {
        if same_text(servers[at].name.as_str(), name) {
            assert(seen[at as int].name == name@);
            return at;
        }
        at = at + 1;
    }
    assert forall|i: int| 0 <= i < seen.len() implies (#[trigger] seen[i]).name != name@ by {
        assert(seen[i] == servers@[i]@);
    }
    at
}

/// The names of the servers whose processes run, without the given one.
fn remove_process(processes: &Vec<String>, name: &str) -> (rest: Vec<String>)
    ensures
        texts(rest@) == without_process(texts(processes@), name@),
        (rest@.len() < processes@.len()) == texts(processes@).contains(name@),
{
    let ghost seen = texts(processes@);
    let mut rest: Vec<String> = Vec::new();
    let mut i: usize = 0;
    proof {
        reveal(Seq::filter);
    }
    assert(seen.take(0) =~= Seq::<Seq<char>>::empty());
    assert(texts(rest@) =~= without_process(seen.take(0), name@));
    while i < processes.len()
        invariant
            i <= processes.len(),
            seen == texts(processes@),
            texts(rest@) == without_process(seen.take(i as int), name@),
            rest@.len() <= i,
            rest@.len() < i ==> seen.contains(name@),
            rest@.len() == i ==> forall|j: int| 0 <= j < i ==> #[trigger] seen[j] != name@,
        decreases processes.len() - i,
    {
        proof {
            reveal(Seq::filter);
            assert(seen.take(i + 1).drop_last() =~= seen.take(i as int));
            assert(seen.take(i + 1).last() == seen[i as int]);
        }
        let ghost before = rest@;
        if !same_text(processes[i].as_str(), name) {
            rest.push(processes[i].clone());
            assert(texts(rest@) =~= texts(before).push(seen[i as int]));
        } else {
            assert(seen[i as int] == name@);
        }
        i = i + 1;
    }
    assert(seen.take(i as int) =~= seen);
    rest
}

impl ProxyServer {
    /// No two connected servers have one name.
    #[verifier::type_invariant]
    spec fn well_formed(&self) -> bool {
        unique_servers(servers_view(self.servers@))
    }

    /// The configuration.
    pub closed spec fn config(&self) -> McpConfig {
        self.config
    }

    /// The servers that the proxy is connected to.
    pub closed spec fn connected(&self) -> Seq<ConnectedServerView> {
        servers_view(self.servers@)
    }

    /// The names of the servers whose processes run.
    pub closed spec fn processes(&self) -> Seq<Seq<char>> {
        texts(self.processes@)
    }

    /// The middleware.
    pub closed spec fn middleware(&self) -> Seq<ProxyMiddleware> {
        self.middleware@
    }

    /// A proxy that is not connected to a server yet.
    pub fn new(config: McpConfig, middleware: Vec<ProxyMiddleware>) -> (proxy: Self)
        ensures
            proxy.config() == config,
            proxy.connected() == Seq::<ConnectedServerView>::empty(),
            proxy.processes() == Seq::<Seq<char>>::empty(),
            proxy.middleware() == middleware@,
    {
        let proxy = ProxyServer { config, servers: Vec::new(), processes: Vec::new(), middleware };
        assert(servers_view(proxy.servers@) =~= Seq::<ConnectedServerView>::empty());
        assert(texts(proxy.processes@) =~= Seq::<Seq<char>>::empty());
        proxy
    }

    /// The servers that the proxy is connected to.
    pub fn servers(&self) -> (servers: &Vec<ConnectedServer>)
        ensures
            servers_view(servers@) == self.connected(),
    {
        &self.servers
    }

    /// Counts a server among those that the proxy is connected to, in place of
    /// one that has its name.
    pub fn insert_server(&mut self, server: ConnectedServer)
        ensures
            final(self).connected() == with_server(old(self).connected(), server@),
            final(self).config() == old(self).config(),
            final(self).processes() == old(self).processes(),
            final(self).middleware() == old(self).middleware(),
    {
        proof {
            use_type_invariant(&*self);
        }
        let ghost before = servers_view(self.servers@);
        let mut servers: Vec<ConnectedServer> = Vec::new();
        std::mem::swap(&mut servers, &mut self.servers);
        let at: usize = find_server(&servers, server.name.as_str());
        proof {
            assert forall|i: int| 0 <= i < at implies (#[trigger] before[i]).name
                != server.name@ by {
                assert(before[i] == servers@[i]@);
            }
            lemma_with_server(before, server@, at as int);
            law_names_stay_unique(before, server@);
        }
        if at < servers.len() {
            servers.set(at, server);
            assert(servers_view(servers@) =~= before.update(at as int, server@));
        } else {
            servers.push(server);
            assert(servers_view(servers@) =~= before.push(server@));
        }
        self.servers = servers;
    }
}

/// Where no two servers have one name, none do when there is one more.
pub proof fn law_names_stay_unique(
    servers: Seq<ConnectedServerView>,
    server: ConnectedServerView,
)
    requires
        unique_servers(servers),
    ensures
        unique_servers(with_server(servers, server)),
        has_server(with_server(servers, server), server.name),
{
    if has_server(servers, server.name) {
        let at = choose|i: int| 0 <= i < servers.len() && (#[trigger] servers[i]).name
            == server.name;
        lemma_with_server(servers, server, at);
        assert(with_server(servers, server)[at].name == server.name);
    } else {
        lemma_with_server(servers, server, servers.len() as int);
        assert(with_server(servers, server)[servers.len() as int].name == server.name);
    }
}

/// How a server is reached.
#[derive(Clone, Debug)]
pub enum Transport {
    /// By its standard input and output, once it is started.
    Stdio(StdioTransportConfig),
    /// By HTTP, with the token to show, where there is one.
    Http { url: String, token: Option<String> },
}

/// How a server is reached, with the texts as characters.
pub enum TransportView {
    Stdio(StdioView),
    Http { url: Seq<char>, token: Option<Seq<char>> },
}

impl View for Transport {
    type V = TransportView;

    open spec fn view(&self) -> TransportView {
        match self {
            Transport::Stdio(stdio) => TransportView::Stdio(stdio@),
            Transport::Http { url, token } => TransportView::Http {
                url: url@,
                token: text_or_none(*token),
            },
        }
    }
}

/// How the server of a configuration is reached. An empty token is none.
pub open spec fn transport_of(config: ServerConfig) -> TransportView {
    match config {
        ServerConfig::Stdio { command, args, env, .. } => TransportView::Stdio(
            StdioView { command: command@, args: texts(args@), env: env@ },
        ),
        ServerConfig::Http { url, authorization_token, .. } => TransportView::Http {
            url: url@,
            token: if authorization_token@.len() > 0 {
                Some(authorization_token@)
            } else {
                None
            },
        },
    }
}

/// How the server of a configuration is reached. An empty token is none.
pub fn transport_for(config: &ServerConfig) -> (transport: Transport)
    ensures
        match transport {
            Transport::Stdio(stdio) => config.stdio() == Some(stdio@),
            Transport::Http { url, token } => config.http() matches Some(http) && url@ == http.url
                && (match token {
                Some(token) => token@ == http.authorization_token && token@.len() > 0,
                None => http.authorization_token.len() == 0,
            }),
        },
        transport@ == transport_of(*config),
{
    match config.as_stdio() {
        Some(stdio) => Transport::Stdio(stdio),
        None => {
            match config.as_http() {
                Some(http) => {
                    let token: Option<String> = if http.authorization_token.as_str().is_empty() {
                        None
                    } else {
                        Some(http.authorization_token)
                    };
                    Transport::Http { url: http.url, token }
                },
                None => vstd::pervasive::unreached(),
            }
        },
    }
}

/// What happened to a server that is a process, while it was being connected to.
#[derive(Clone, Debug, PartialEq, Eq)]
pub enum StdioEvent {
    /// The process was started.
    Spawned,
    /// The process could not be started, and why.
    NotSpawned { reason: String },
    /// The process answers.
    Served,
    /// The process does not answer as it should, and why.
    NotServed { reason: String },
}

/// What to do next with a server that is a process.
#[derive(Clone, Debug, PartialEq, Eq)]
pub enum StdioAction {
    /// Speak to the process.
    Serve,
    /// Nothing more: the server is connected.
    Connected,
    /// Give the server up, and end its process where it has one.
    GiveUp { kill: bool, error: ProxyError },
}

/// What is done about what happened to a server that is a process, and which processes
/// run then.
pub open spec fn is_handled(
    before: Seq<Seq<char>>,
    name: Seq<char>,
    event: StdioEvent,
    action: StdioAction,
    after: Seq<Seq<char>>,
) -> bool {
    match event {
        StdioEvent::Spawned => {
            &&& action == StdioAction::Serve
            &&& after == without_process(before, name).push(name)
        },
        StdioEvent::NotSpawned { reason } => {
            &&& action matches StdioAction::GiveUp { kill, error } && !kill && error@
                == ProxyErrorView::ProcessSpawn("Failed to spawn child process: "@ + reason@)
            &&& after == before
        },
        StdioEvent::Served => {
            &&& action == StdioAction::Connected
            &&& after == before
        },
        StdioEvent::NotServed { reason } => {
            &&& action matches StdioAction::GiveUp { kill, error } && kill == before.contains(name)
                && error@ == (ProxyErrorView::Connection {
                server: name,
                reason: "Failed to serve client: "@ + reason@,
            })
            &&& after == without_process(before, name)
        },
    }
}

impl ProxyServer {
    /// What to do next with a server that is a process. A process that was
    /// started is remembered, and forgotten where the server is given up.
    pub fn on_stdio_event(&mut self, server_name: &str, event: StdioEvent) -> (action: StdioAction)
        ensures
            final(self).config() == old(self).config(),
            final(self).connected() == old(self).connected(),
            final(self).middleware() == old(self).middleware(),
            match event {
                StdioEvent::Spawned => {
                    &&& action == StdioAction::Serve
                    &&& final(self).processes() == without_process(
                        old(self).processes(),
                        server_name@,
                    ).push(server_name@)
                },
                StdioEvent::NotSpawned { reason } => {
                    &&& action matches StdioAction::GiveUp { kill, error } && !kill && error@
                        == ProxyErrorView::ProcessSpawn(
                        "Failed to spawn child process: "@ + reason@,
                    )
                    &&& final(self).processes() == old(self).processes()
                },
                StdioEvent::Served => {
                    &&& action == StdioAction::Connected
                    &&& final(self).processes() == old(self).processes()
                },
                StdioEvent::NotServed { reason } => {
                    &&& action matches StdioAction::GiveUp { kill, error } && kill == old(
                        self,
                    ).processes().contains(server_name@) && error@ == (ProxyErrorView::Connection {
                        server: server_name@,
                        reason: "Failed to serve client: "@ + reason@,
                    })
                    &&& final(self).processes() == without_process(
                        old(self).processes(),
                        server_name@,
                    )
                },
            },
            is_handled(
                old(self).processes(),
                server_name@,
                event,
                action,
                final(self).processes(),
            ),
    {
        proof {
            use_type_invariant(&*self);
        }
        match event {
            StdioEvent::Spawned => {
                let mut processes: Vec<String> = remove_process(&self.processes, server_name);
                let ghost rest = processes@;
                processes.push(server_name.to_string());
                assert(texts(processes@) =~= texts(rest).push(server_name@));
                self.processes = processes;
                StdioAction::Serve
            },
            StdioEvent::NotSpawned { reason } => StdioAction::GiveUp {
                kill: false,
                error: ProxyError::process_spawn(
                    joined("Failed to spawn child process: ", reason.as_str()).as_str(),
                ),
            },
            StdioEvent::Served => StdioAction::Connected,
            StdioEvent::NotServed { reason } => {
                let rest: Vec<String> = remove_process(&self.processes, server_name);
                let kill: bool = rest.len() < self.processes.len();
                self.processes = rest;
                StdioAction::GiveUp {
                    kill,
                    error: ProxyError::connection(
                        server_name,
                        joined("Failed to serve client: ", reason.as_str()).as_str(),
                    ),
                }
            },
        }
    }
}

/// A process that was started and did not answer is forgotten: what is left are
/// the processes of the other servers.
pub proof fn law_given_up_process_is_forgotten(processes: Seq<Seq<char>>, name: Seq<char>)
    ensures
        without_process(without_process(processes, name).push(name), name) == without_process(
            processes,
            name,
        ),
        !without_process(processes, name).contains(name),
{
    let rest = without_process(processes, name);
    reveal(Seq::filter);
    assert(rest.push(name).drop_last() =~= rest);
    lemma_without_process(processes, name);
    lemma_kept_processes(rest, name);
}

/// What is left is of other servers.
proof fn lemma_without_process(processes: Seq<Seq<char>>, name: Seq<char>)
    ensures
        forall|i: int|
            0 <= i < without_process(processes, name).len() ==> #[trigger] without_process(
                processes,
                name,
            )[i] != name,
    decreases processes.len(),
{
    reveal(Seq::filter);
    if processes.len() > 0 {
        lemma_without_process(processes.drop_last(), name);
    }
}

/// Processes of other servers all stay.
proof fn lemma_kept_processes(processes: Seq<Seq<char>>, name: Seq<char>)
    requires
        forall|i: int| 0 <= i < processes.len() ==> #[trigger] processes[i] != name,
    ensures
        without_process(processes, name) == processes,
    decreases processes.len(),
{
    reveal(Seq::filter);
    if processes.len() > 0 {
        lemma_kept_processes(processes.drop_last(), name);
        assert(processes[processes.len() - 1] != name);
        assert(processes.drop_last().push(processes.last()) =~= processes);
    }
}

/// The error of a server that could not be reached over HTTP, and why.
pub fn http_connection_error(server_name: &str, reason: &str) -> (error: ProxyError)
    ensures
        error@ == (ProxyErrorView::Connection {
            server: server_name@,
            reason: "Failed to serve HTTP client: "@ + reason@,
        }),
{
    ProxyError::connection(server_name, joined("Failed to serve HTTP client: ", reason).as_str())
}

/// What asking a server for one kind of items gave.
#[derive(Clone, Copy, Debug, PartialEq, Eq, Structural)]
pub enum Fetched {
    /// The items.
    Items,
    /// The server does not have that kind of items.
    Unsupported,
    /// An error.
    Failed,
}

/// An error says that there is no such method: its text holds the number that
/// JSON-RPC has for that.
pub open spec fn says_unsupported(reason: Seq<char>) -> bool {
    occurs_in(reason, "-32601"@)
}

/// The error that asking a server for items gave.
pub open spec fn error_text<T>(result: Result<Vec<T>, String>) -> Option<Seq<char>> {
    match result {
        Ok(_) => None,
        Err(reason) => Some(reason@),
    }
}

/// What asking a server for a kind of items gave. Only a kind that a server need
/// not have can be one that it does not support.
pub open spec fn fetch_of(reason: Option<Seq<char>>, optional: bool) -> Fetched {
    match reason {
        None => Fetched::Items,
        Some(reason) => if optional && says_unsupported(reason) {
            Fetched::Unsupported
        } else {
            Fetched::Failed
        },
    }
}

/// What an error says of a kind of items that a server need not have.
fn fetch_error(reason: &str) -> (fetched: Fetched)
    ensures
        fetched == fetch_of(Some(reason@), true),
{
    if contains_text(reason, "-32601") {
        Fetched::Unsupported
    } else {
        Fetched::Failed
    }
}

/// The items of a server, from what asking it gave: those before where it gave none.
pub open spec fn items_after<T>(before: Vec<T>, answer: Result<Vec<T>, String>) -> Vec<T> {
    match answer {
        Ok(items) => items,
        Err(_) => before,
    }
}

/// Remembers what a server offers, from what asking it gave. What could not be
/// had stays as it was.
pub fn populate_server_capabilities(
    server: &mut ConnectedServer,
    tools: Result<Vec<Tool>, String>,
    prompts: Result<Vec<Prompt>, String>,
    resources: Result<Vec<Resource>, String>,
) -> (fetched: (Fetched, Fetched, Fetched))
    ensures
        final(server).name == old(server).name,
        final(server).tools == (match tools {
            Ok(items) => items,
            Err(_) => old(server).tools,
        }),
        final(server).prompts == (match prompts {
            Ok(items) => items,
            Err(_) => old(server).prompts,
        }),
        final(server).resources == (match resources {
            Ok(items) => items,
            Err(_) => old(server).resources,
        }),
        final(server).tools == items_after(old(server).tools, tools),
        final(server).prompts == items_after(old(server).prompts, prompts),
        final(server).resources == items_after(old(server).resources, resources),
        fetched.0 == fetch_of(error_text(tools), false),
        fetched.1 == fetch_of(error_text(prompts), true),
        fetched.2 == fetch_of(error_text(resources), true),
{
    let fetched_tools: Fetched = match tools {
        Ok(items) => {
            server.tools = items;
            Fetched::Items
        },
        Err(_) => Fetched::Failed,
    };
    let fetched_prompts: Fetched = match prompts {
        Ok(items) => {
            server.prompts = items;
            Fetched::Items
        },
        Err(reason) => fetch_error(reason.as_str()),
    };
    let fetched_resources: Fetched = match resources {
        Ok(items) => {
            server.resources = items;
            Fetched::Items
        },
        Err(reason) => fetch_error(reason.as_str()),
    };
    (fetched_tools, fetched_prompts, fetched_resources)
}

/// A server that was just connected to, of which nothing more is known.
pub fn new_connected_server(name: &str) -> (server: ConnectedServer)
    ensures
        server@ == (ConnectedServerView {
            name: name@,
            tools: Seq::empty(),
            prompts: Seq::empty(),
            resources: Seq::empty(),
        }),
{
    let server = ConnectedServer {
        name: name.to_string(),
        tools: Vec::new(),
        prompts: Vec::new(),
        resources: Vec::new(),
    };
    assert(tools_view(server.tools@) =~= Seq::<ToolView>::empty());
    assert(prompts_view(server.prompts@) =~= Seq::<PromptView>::empty());
    assert(resources_view(server.resources@) =~= Seq::<ResourceView>::empty());
    server
}

/// The server with what it offers, as far as it could be had.
pub open spec fn offering(
    name: Seq<char>,
    tools: Result<Vec<Tool>, String>,
    prompts: Result<Vec<Prompt>, String>,
    resources: Result<Vec<Resource>, String>,
) -> ConnectedServerView {
    ConnectedServerView {
        name,
        tools: match tools {
            Ok(items) => tools_view(items@),
            Err(_) => Seq::empty(),
        },
        prompts: match prompts {
            Ok(items) => prompts_view(items@),
            Err(_) => Seq::empty(),
        },
        resources: match resources {
            Ok(items) => resources_view(items@),
            Err(_) => Seq::empty(),
        },
    }
}

impl ProxyServer {
    /// Counts a server that was connected to among the servers, with what it
    /// offers, from what asking it gave.
    pub fn connect_server(
        &mut self,
        server_name: &str,
        tools: Result<Vec<Tool>, String>,
        prompts: Result<Vec<Prompt>, String>,
        resources: Result<Vec<Resource>, String>,
    ) -> (fetched: (Fetched, Fetched, Fetched))
        ensures
            final(self).connected() == with_server(
                old(self).connected(),
                offering(server_name@, tools, prompts, resources),
            ),
            fetched.0 == fetch_of(error_text(tools), false),
            fetched.1 == fetch_of(error_text(prompts), true),
            fetched.2 == fetch_of(error_text(resources), true),
            exists|at: int|
                0 <= at < final(self).connected().len() && {
                    let server = #[trigger] final(self).connected()[at];
                    &&& server.name == server_name@
                    &&& server.tools == (match tools {
                        Ok(items) => tools_view(items@),
                        Err(_) => Seq::empty(),
                    })
                    &&& server.prompts == (match prompts {
                        Ok(items) => prompts_view(items@),
                        Err(_) => Seq::empty(),
                    })
                    &&& server.resources == (match resources {
                        Ok(items) => resources_view(items@),
                        Err(_) => Seq::empty(),
                    })
                },
            final(self).config() == old(self).config(),
            final(self).processes() == old(self).processes(),
            final(self).middleware() == old(self).middleware(),
    {
        let mut server: ConnectedServer = new_connected_server(server_name);
        let fetched: (Fetched, Fetched, Fetched) = populate_server_capabilities(
            &mut server,
            tools,
            prompts,
            resources,
        );
        let ghost offered = offering(server_name@, tools, prompts, resources);
        assert(server@ =~= offered);
        proof {
            use_type_invariant(&*self);
            law_server_is_counted(old(self).connected(), offered, offered);
        }
        self.insert_server(server);
        proof {
            let after = self.connected();
            let at = choose|i: int| 0 <= i < after.len() && after[i] == offered;
            assert(after[at] == offered);
        }
        fetched
    }
}

/// How connecting to one server ended: with the name of the server, or with its
/// name and the error.
pub type ConnectResult = Result<String, (String, ProxyError)>;

/// The servers that were connected to, and those that were not, in the order of
/// the results.
pub struct ConnectSummary {
    pub connected: Vec<String>,
    pub failed: Vec<(String, ProxyError)>,
}

/// The names of the servers that were connected to.
pub open spec fn connected_names(results: Seq<ConnectResult>) -> Seq<Seq<char>>
    decreases results.len(),
{
    if results.len() == 0 {
        Seq::empty()
    } else {
        let before = connected_names(results.drop_last());
        match results.last() {
            Ok(name) => before.push(name@),
            Err(_) => before,
        }
    }
}

/// The servers that were not connected to, each with the error.
pub open spec fn failed_servers(results: Seq<ConnectResult>) -> Seq<(Seq<char>, ProxyErrorView)>
    decreases results.len(),
{
    if results.len() == 0 {
        Seq::empty()
    } else {
        let before = failed_servers(results.drop_last());
        match results.last() {
            Ok(_) => before,
            Err((name, error)) => before.push((name@, error@)),
        }
    }
}

/// The proxy can go on after connecting: a server is connected, or none is configured.
pub open spec fn can_go_on(results: Seq<ConnectResult>, none_configured: bool) -> bool {
    connected_names(results).len() > 0 || none_configured
}

/// The servers of a list, each with its error, with their texts as characters.
pub open spec fn failures_view(failed: Seq<(String, ProxyError)>) -> Seq<
    (Seq<char>, ProxyErrorView),
> {
    failed.map_values(|failure: (String, ProxyError)| (failure.0@, failure.1@))
}

/// Parts the servers that were connected to from the others.
fn summarize(results: Vec<ConnectResult>) -> (summary: ConnectSummary)
    ensures
        texts(summary.connected@) == connected_names(results@),
        failures_view(summary.failed@) == failed_servers(results@),
{
    let mut connected: Vec<String> = Vec::new();
    let mut failed: Vec<(String, ProxyError)> = Vec::new();
    let ghost all = results@;
    assert(all.take(0) =~= Seq::<ConnectResult>::empty());
    assert(texts(connected@) =~= Seq::<Seq<char>>::empty());
    assert(failures_view(failed@) =~= Seq::<(Seq<char>, ProxyErrorView)>::empty());
    for result in it: results
        invariant
            it.seq() == all,
            texts(connected@) == connected_names(all.take(it.index() as int)),
            failures_view(failed@) == failed_servers(all.take(it.index() as int)),
    {
        let ghost names = connected@;
        let ghost errors = failed@;
        proof {
            let done = it.index() as int;
            assert(all.take(done + 1).drop_last() =~= all.take(done));
            assert(all.take(done + 1).last() == result);
        }
        match result {
            Ok(name) => {
                connected.push(name);
                assert(texts(connected@) =~= texts(names).push(name@));
            },
            Err(failure) => {
                failed.push(failure);
                assert(failures_view(failed@) =~= failures_view(errors).push(
                    (failure.0@, failure.1@),
                ));
            },
        }
    }
    assert(all.take(all.len() as int) =~= all);
    ConnectSummary { connected, failed }
}

impl ProxyServer {
    /// Whether the proxy can go on once it has tried to connect to all servers:
    /// it can where it is connected to one at least, or where none is configured.
    pub fn finish_connecting(&self, results: Vec<ConnectResult>) -> (res: Result<
        ConnectSummary,
        ProxyError,
    >)
        ensures
            match res {
                Ok(summary) => {
                    &&& connected_names(results@).len() > 0 || self.config().mcp_servers@.is_empty()
                    &&& texts(summary.connected@) == connected_names(results@)
                    &&& failures_view(summary.failed@) == failed_servers(results@)
                },
                Err(error) => {
                    &&& connected_names(results@).len() == 0
                    &&& !self.config().mcp_servers@.is_empty()
                    &&& error@ == ProxyErrorView::Config("Failed to connect to any MCP servers"@)
                },
            },
            res is Ok <==> can_go_on(results@, self.config().mcp_servers@.is_empty()),
    {
        let summary: ConnectSummary = summarize(results);
        assert(texts(summary.connected@).len() == summary.connected@.len());
        if summary.connected.len() > 0 || self.config.mcp_servers.is_empty() {
            Ok(summary)
        } else {
            Err(ProxyError::config("Failed to connect to any MCP servers"))
        }
    }
}

/// What a server said when it was asked for its items: the name of the server,
/// and the items or the error.
pub type Answer<T> = (String, Result<Vec<T>, String>);

/// A tool with the name of its server before its own.
pub open spec fn prefixed_tool(server: Seq<char>, tool: ToolView) -> ToolView {
    ToolView { name: prefixed(server, tool.name), ..tool }
}

/// A prompt with the name of its server before its own.
pub open spec fn prefixed_prompt(server: Seq<char>, prompt: PromptView) -> PromptView {
    PromptView { name: prefixed(server, prompt.name), ..prompt }
}

/// A resource with the name of its server before its name and before its URI.
pub open spec fn prefixed_resource(server: Seq<char>, resource: ResourceView) -> ResourceView {
    ResourceView {
        uri: prefixed(server, resource.uri),
        name: prefixed(server, resource.name),
        ..resource
    }
}

/// The tools of a server, with the name of the server before their own.
pub open spec fn tools_of_server(server: Seq<char>, tools: Seq<ToolView>) -> Seq<ToolView> {
    tools.map_values(|tool: ToolView| prefixed_tool(server, tool))
}

/// The prompts of a server, with the name of the server before their own.
pub open spec fn prompts_of_server(server: Seq<char>, prompts: Seq<PromptView>) -> Seq<
    PromptView,
> {
    prompts.map_values(|prompt: PromptView| prefixed_prompt(server, prompt))
}

/// The resources of a server, with the name of the server before their names and
/// URIs.
pub open spec fn resources_of_server(server: Seq<char>, resources: Seq<ResourceView>) -> Seq<
    ResourceView,
> {
    resources.map_values(|resource: ResourceView| prefixed_resource(server, resource))
}

/// The tools of all servers that answered, in the order of the answers.
pub open spec fn answered_tools(answers: Seq<Answer<Tool>>) -> Seq<ToolView>
    decreases answers.len(),
{
    if answers.len() == 0 {
        Seq::empty()
    } else {
        let before = answered_tools(answers.drop_last());
        match answers.last().1 {
            Ok(tools) => before + tools_of_server(answers.last().0@, tools_view(tools@)),
            Err(_) => before,
        }
    }
}

/// The prompts of all servers that answered, in the order of the answers.
pub open spec fn answered_prompts(answers: Seq<Answer<Prompt>>) -> Seq<PromptView>
    decreases answers.len(),
{
    if answers.len() == 0 {
        Seq::empty()
    } else {
        let before = answered_prompts(answers.drop_last());
        match answers.last().1 {
            Ok(prompts) => before + prompts_of_server(answers.last().0@, prompts_view(prompts@)),
            Err(_) => before,
        }
    }
}

/// The resources of all servers that answered, in the order of the answers.
pub open spec fn answered_resources(answers: Seq<Answer<Resource>>) -> Seq<ResourceView>
    decreases answers.len(),
{
    if answers.len() == 0 {
        Seq::empty()
    } else {
        let before = answered_resources(answers.drop_last());
        match answers.last().1 {
            Ok(resources) => before + resources_of_server(
                answers.last().0@,
                resources_view(resources@),
            ),
            Err(_) => before,
        }
    }
}

/// One of the tools has the given name.
pub open spec fn has_tool(tools: Seq<ToolView>, name: Seq<char>) -> bool {
    exists|i: int| 0 <= i < tools.len() && (#[trigger] tools[i]).name == name
}

/// One of the prompts has the given name.
pub open spec fn has_prompt(prompts: Seq<PromptView>, name: Seq<char>) -> bool {
    exists|i: int| 0 <= i < prompts.len() && (#[trigger] prompts[i]).name == name
}

/// One of the resources has the given URI.
pub open spec fn has_resource(resources: Seq<ResourceView>, uri: Seq<char>) -> bool {
    exists|i: int| 0 <= i < resources.len() && (#[trigger] resources[i]).uri == uri
}

/// These are the tools that a client is shown, from what the servers answered: those of
/// all answers, and then what the middleware makes of them.
pub open spec fn are_listed_tools(
    middleware: Seq<ProxyMiddleware>,
    answers: Seq<Answer<Tool>>,
    tools: Seq<ToolView>,
) -> bool {
    tools == tools_through(middleware, answered_tools(answers))
}

/// These are the prompts that a client is shown, from what the servers answered: those of
/// all answers, and then what the middleware makes of them.
pub open spec fn are_listed_prompts(
    middleware: Seq<ProxyMiddleware>,
    answers: Seq<Answer<Prompt>>,
    prompts: Seq<PromptView>,
) -> bool {
    prompts == prompts_through(middleware, answered_prompts(answers))
}

/// These are the resources that a client is shown, from what the servers answered: those of
/// all answers, and then what the middleware makes of them.
pub open spec fn are_listed_resources(
    middleware: Seq<ProxyMiddleware>,
    answers: Seq<Answer<Resource>>,
    resources: Seq<ResourceView>,
) -> bool {
    resources == resources_through(middleware, answered_resources(answers))
}

/// Adds the tools of a server, with the name of the server before their own.
fn push_tools(all: &mut Vec<Tool>, server: &str, tools: Vec<Tool>)
    ensures
        tools_view(final(all)@) == tools_view(old(all)@) + tools_of_server(
            server@,
            tools_view(tools@),
        ),
{
    let ghost before = tools_view(all@);
    let ghost added = tools_of_server(server@, tools_view(tools@));
    assert(before + added.take(0) =~= before);
    for tool in it: tools
        invariant
            it.seq() == tools@,
            added == tools_of_server(server@, tools_view(tools@)),
            tools_view(all@) == before + added.take(it.index() as int),
    {
        let mut renamed: Tool = tool;
        renamed.name = prefix_with_server(server, renamed.name.as_str());
        let ghost state = all@;
        all.push(renamed);
        proof {
            let done = it.index() as int;
            assert(added[done] == renamed@);
            assert(tools_view(all@) =~= tools_view(state).push(renamed@));
            assert(before + added.take(done + 1) =~= (before + added.take(done)).push(renamed@));
        }
    }
    assert(added.take(added.len() as int) =~= added);
}

/// Adds the prompts of a server, with the name of the server before their own.
fn push_prompts(all: &mut Vec<Prompt>, server: &str, prompts: Vec<Prompt>)
    ensures
        prompts_view(final(all)@) == prompts_view(old(all)@) + prompts_of_server(
            server@,
            prompts_view(prompts@),
        ),
{
    let ghost before = prompts_view(all@);
    let ghost added = prompts_of_server(server@, prompts_view(prompts@));
    assert(before + added.take(0) =~= before);
    for prompt in it: prompts
        invariant
            it.seq() == prompts@,
            added == prompts_of_server(server@, prompts_view(prompts@)),
            prompts_view(all@) == before + added.take(it.index() as int),
    {
        let mut renamed: Prompt = prompt;
        renamed.name = prefix_with_server(server, renamed.name.as_str());
        let ghost state = all@;
        all.push(renamed);
        proof {
            let done = it.index() as int;
            assert(added[done] == renamed@);
            assert(prompts_view(all@) =~= prompts_view(state).push(renamed@));
            assert(before + added.take(done + 1) =~= (before + added.take(done)).push(renamed@));
        }
    }
    assert(added.take(added.len() as int) =~= added);
}

/// Adds the resources of a server, with the name of the server before their names
/// and URIs.
fn push_resources(all: &mut Vec<Resource>, server: &str, resources: Vec<Resource>)
    ensures
        resources_view(final(all)@) == resources_view(old(all)@) + resources_of_server(
            server@,
            resources_view(resources@),
        ),
{
    let ghost before = resources_view(all@);
    let ghost added = resources_of_server(server@, resources_view(resources@));
    assert(before + added.take(0) =~= before);
    for resource in it: resources
        invariant
            it.seq() == resources@,
            added == resources_of_server(server@, resources_view(resources@)),
            resources_view(all@) == before + added.take(it.index() as int),
    {
        let mut renamed: Resource = resource;
        renamed.uri = prefix_with_server(server, renamed.uri.as_str());
        renamed.name = prefix_with_server(server, renamed.name.as_str());
        let ghost state = all@;
        all.push(renamed);
        proof {
            let done = it.index() as int;
            assert(added[done] == renamed@);
            assert(resources_view(all@) =~= resources_view(state).push(renamed@));
            assert(before + added.take(done + 1) =~= (before + added.take(done)).push(renamed@));
        }
    }
    assert(added.take(added.len() as int) =~= added);
}

impl ProxyServer {
    /// All tools that a client is shown, from what the servers answered: each
    /// with the name of its server before its own, and then what the middleware
    /// makes of them.
    pub fn get_all_tools(&mut self, answers: Vec<Answer<Tool>>) -> (tools: Vec<Tool>)
        ensures
            tools_view(tools@) == tools_through(old(self).middleware(), answered_tools(answers@)),
            are_listed_tools(old(self).middleware(), answers@, tools_view(tools@)),
            !has_search(old(self).middleware()) ==> forall|k: int, j: int|
                0 <= k < answers@.len() && answers@[k].1 is Ok && 0 <= j
                    < answers@[k].1->Ok_0@.len() ==> has_tool(
                    tools_view(tools@),
                    prefixed(answers@[k].0@, (#[trigger] answers@[k].1->Ok_0@[j])@.name),
                ),
            all_listed_to(
                old(self).middleware(),
                answered_tools(answers@),
                final(self).middleware(),
            ),
            final(self).config() == old(self).config(),
            final(self).connected() == old(self).connected(),
            final(self).processes() == old(self).processes(),
    {
        proof {
            use_type_invariant(&*self);
        }
        let ghost given = answers@;
        let mut all_tools: Vec<Tool> = Vec::new();
        assert(given.take(0) =~= Seq::<Answer<Tool>>::empty());
        assert(tools_view(all_tools@) =~= Seq::<ToolView>::empty());
        for answer in it: answers
            invariant
                it.seq() == given,
                tools_view(all_tools@) == answered_tools(given.take(it.index() as int)),
        {
            proof {
                let done = it.index() as int;
                assert(given.take(done + 1).drop_last() =~= given.take(done));
                assert(given.take(done + 1).last() == answer);
            }
            let (server_name, result): Answer<Tool> = answer;
            if let Ok(tools) = result {
                push_tools(&mut all_tools, server_name.as_str(), tools);
            }
        }
        assert(given.take(given.len() as int) =~= given);
        let mut middleware: Vec<ProxyMiddleware> = Vec::new();
        std::mem::swap(&mut middleware, &mut self.middleware);
        list_tools_through(&mut middleware, &mut all_tools);
        self.middleware = middleware;
        proof {
            let listed = answered_tools(given);
            let shown = tools_view(all_tools@);
            if !has_search(old(self).middleware()) {
                lemma_enrichers_only(old(self).middleware());
                assert forall|k: int, j: int|
                    0 <= k < given.len() && given[k].1 is Ok && 0 <= j
                        < given[k].1->Ok_0@.len() implies has_tool(
                    shown,
                    prefixed(given[k].0@, (#[trigger] given[k].1->Ok_0@[j])@.name),
                ) by {
                    let item = prefixed_tool(given[k].0@, given[k].1->Ok_0@[j]@);
                    law_every_tool_is_listed(given, k, j);
                    let i = choose|i: int| 0 <= i < listed.len() && listed[i] == item;
                    law_tools_keep_their_names(old(self).middleware(), listed);
                    assert(shown[i].name == item.name);
                }
            }
        }
        all_tools
    }

    /// All prompts that a client is shown, from what the servers answered.
    pub fn get_all_prompts(&self, answers: Vec<Answer<Prompt>>) -> (prompts: Vec<Prompt>)
        ensures
            prompts_view(prompts@) == prompts_through(
                self.middleware(),
                answered_prompts(answers@),
            ),
            are_listed_prompts(self.middleware(), answers@, prompts_view(prompts@)),
            forall|k: int, j: int|
                0 <= k < answers@.len() && answers@[k].1 is Ok && 0 <= j
                    < answers@[k].1->Ok_0@.len() ==> has_prompt(
                    prompts_view(prompts@),
                    prefixed(answers@[k].0@, (#[trigger] answers@[k].1->Ok_0@[j])@.name),
                ),
    {
        let ghost given = answers@;
        let mut all_prompts: Vec<Prompt> = Vec::new();
        assert(given.take(0) =~= Seq::<Answer<Prompt>>::empty());
        assert(prompts_view(all_prompts@) =~= Seq::<PromptView>::empty());
        for answer in it: answers
            invariant
                it.seq() == given,
                prompts_view(all_prompts@) == answered_prompts(given.take(it.index() as int)),
        {
            proof {
                let done = it.index() as int;
                assert(given.take(done + 1).drop_last() =~= given.take(done));
                assert(given.take(done + 1).last() == answer);
            }
            let (server_name, result): Answer<Prompt> = answer;
            if let Ok(prompts) = result {
                push_prompts(&mut all_prompts, server_name.as_str(), prompts);
            }
        }
        assert(given.take(given.len() as int) =~= given);
        list_prompts_through(&self.middleware, &mut all_prompts);
        proof {
            let listed = answered_prompts(given);
            let shown = prompts_view(all_prompts@);
            assert forall|k: int, j: int|
                0 <= k < given.len() && given[k].1 is Ok && 0 <= j
                    < given[k].1->Ok_0@.len() implies has_prompt(
                shown,
                prefixed(given[k].0@, (#[trigger] given[k].1->Ok_0@[j])@.name),
            ) by {
                let item = prefixed_prompt(given[k].0@, given[k].1->Ok_0@[j]@);
                law_every_prompt_is_listed(given, k, j);
                let i = choose|i: int| 0 <= i < listed.len() && listed[i] == item;
                law_prompts_keep_their_names(self.middleware@, listed);
                assert(shown[i].name == item.name);
            }
        }
        all_prompts
    }

    /// All resources that a client is shown, from what the servers answered.
    pub fn get_all_resources(&self, answers: Vec<Answer<Resource>>) -> (resources: Vec<Resource>)
        ensures
            resources_view(resources@) == resources_through(
                self.middleware(),
                answered_resources(answers@),
            ),
            are_listed_resources(self.middleware(), answers@, resources_view(resources@)),
            forall|k: int, j: int|
                0 <= k < answers@.len() && answers@[k].1 is Ok && 0 <= j
                    < answers@[k].1->Ok_0@.len() ==> has_resource(
                    resources_view(resources@),
                    prefixed(answers@[k].0@, (#[trigger] answers@[k].1->Ok_0@[j])@.uri),
                ),
    {
        let ghost given = answers@;
        let mut all_resources: Vec<Resource> = Vec::new();
        assert(given.take(0) =~= Seq::<Answer<Resource>>::empty());
        assert(resources_view(all_resources@) =~= Seq::<ResourceView>::empty());
        for answer in it: answers
            invariant
                it.seq() == given,
                resources_view(all_resources@) == answered_resources(
                    given.take(it.index() as int),
                ),
        {
            proof {
                let done = it.index() as int;
                assert(given.take(done + 1).drop_last() =~= given.take(done));
                assert(given.take(done + 1).last() == answer);
            }
            let (server_name, result): Answer<Resource> = answer;
            if let Ok(resources) = result {
                push_resources(&mut all_resources, server_name.as_str(), resources);
            }
        }
        assert(given.take(given.len() as int) =~= given);
        list_resources_through(&self.middleware, &mut all_resources);
        proof {
            let listed = answered_resources(given);
            let shown = resources_view(all_resources@);
            assert forall|k: int, j: int|
                0 <= k < given.len() && given[k].1 is Ok && 0 <= j
                    < given[k].1->Ok_0@.len() implies has_resource(
                shown,
                prefixed(given[k].0@, (#[trigger] given[k].1->Ok_0@[j])@.uri),
            ) by {
                let item = prefixed_resource(given[k].0@, given[k].1->Ok_0@[j]@);
                law_every_resource_is_listed(given, k, j);
                let i = choose|i: int| 0 <= i < listed.len() && listed[i] == item;
                law_resources_keep_their_names(self.middleware@, listed);
                assert(shown[i].uri == item.uri);
            }
        }
        all_resources
    }
}

/// The tools that the servers offered when they were connected to, each with the
/// name of its server before its own.
pub open spec fn cached_tools(servers: Seq<ConnectedServerView>) -> Seq<ToolView>
    decreases servers.len(),
{
    if servers.len() == 0 {
        Seq::empty()
    } else {
        cached_tools(servers.drop_last()) + tools_of_server(
            servers.last().name,
            servers.last().tools,
        )
    }
}

/// The tool search stands at a position of the middleware, and no other before
/// it.
pub open spec fn is_first_search(middleware: Seq<ProxyMiddleware>, at: int) -> bool {
    &&& 0 <= at < middleware.len()
    &&& middleware[at] is ToolSearch
    &&& forall|i: int| 0 <= i < at ==> (#[trigger] middleware[i]) is DescriptionEnricher
}

/// There is a tool search among the middleware.
pub open spec fn has_search(middleware: Seq<ProxyMiddleware>) -> bool {
    exists|at: int| is_first_search(middleware, at)
}

/// Middleware without a tool search is enrichers only.
proof fn lemma_enrichers_only(middleware: Seq<ProxyMiddleware>)
    requires
        !has_search(middleware),
    ensures
        forall|i: int|
            0 <= i < middleware.len() ==> (#[trigger] middleware[i]) is DescriptionEnricher,
{
    lemma_first_enrichers(middleware, middleware.len() as int);
}

/// Without a tool search the first pieces of middleware are enrichers.
proof fn lemma_first_enrichers(middleware: Seq<ProxyMiddleware>, len: int)
    requires
        !has_search(middleware),
        0 <= len <= middleware.len(),
    ensures
        forall|i: int| 0 <= i < len ==> (#[trigger] middleware[i]) is DescriptionEnricher,
    decreases len,
{
    if len > 0 {
        lemma_first_enrichers(middleware, len - 1);
        assert(!is_first_search(middleware, len - 1));
    }
}

/// The position of the first tool search, where there is one.
fn find_search(middleware: &Vec<ProxyMiddleware>) -> (found: Option<usize>)
    ensures
        match found {
            Some(at) => is_first_search(middleware@, at as int),
            None => !has_search(middleware@),
        },
{
    let mut at: usize = 0;
    while at < middleware.len()
        invariant
            at <= middleware.len(),
            forall|i: int| 0 <= i < at ==> (#[trigger] middleware@[i]) is DescriptionEnricher,
        decreases middleware.len() - at,
    {
        if let ProxyMiddleware::ToolSearch(_) = &middleware[at] {
            return Some(at);
        }
        at = at + 1;
    }
    None
}

impl ProxyServer {
    /// The tools that the servers offered when they were connected to.
    pub fn get_all_tools_from_cache(&self) -> (tools: Vec<Tool>)
        ensures
            tools_view(tools@) == cached_tools(self.connected()),
            forall|k: int, j: int|
                0 <= k < self.connected().len() && 0 <= j < self.connected()[k].tools.len()
                    ==> has_tool(
                    tools_view(tools@),
                    prefixed(
                        self.connected()[k].name,
                        (#[trigger] self.connected()[k].tools[j]).name,
                    ),
                ),
    {
        let ghost seen = servers_view(self.servers@);
        let mut all_tools: Vec<Tool> = Vec::new();
        let mut i: usize = 0;
        assert(seen.take(0) =~= Seq::<ConnectedServerView>::empty());
        assert(tools_view(all_tools@) =~= Seq::<ToolView>::empty());
        while i < self.servers.len()
            invariant
                i <= self.servers.len(),
                seen == servers_view(self.servers@),
                tools_view(all_tools@) == cached_tools(seen.take(i as int)),
            decreases self.servers.len() - i,
        {
            proof {
                assert(seen.take(i + 1).drop_last() =~= seen.take(i as int));
                assert(seen.take(i + 1).last() == self.servers@[i as int]@);
            }
            let server: &ConnectedServer = &self.servers[i];
            push_tools(&mut all_tools, server.name.as_str(), clone_tools(&server.tools));
            i = i + 1;
        }
        assert(seen.take(i as int) =~= seen);
        proof {
            let listed = tools_view(all_tools@);
            assert forall|k: int, j: int|
                0 <= k < seen.len() && 0 <= j < seen[k].tools.len() implies has_tool(
                listed,
                prefixed(seen[k].name, (#[trigger] seen[k].tools[j]).name),
            ) by {
                let item = prefixed_tool(seen[k].name, seen[k].tools[j]);
                law_every_tool_is_cached(seen, k, j);
                let i = choose|i: int| 0 <= i < listed.len() && listed[i] == item;
                assert(listed[i].name == item.name);
            }
        }
        all_tools
    }

    /// Puts the tools that the servers offered when they were connected to into
    /// the index of the tool search, where there is one, and says what became of
    /// them.
    pub fn initialize_tool_search_index(&mut self) -> (report: Option<IndexReport>)
        ensures
            final(self).config() == old(self).config(),
            final(self).connected() == old(self).connected(),
            final(self).processes() == old(self).processes(),
            match report {
                None => !has_search(old(self).middleware()) && final(self).middleware() == old(
                    self,
                ).middleware(),
                Some(report) => exists|at: int, after: ToolSearchMiddleware|
                    {
                        &&& #[trigger] is_first_search(old(self).middleware(), at)
                        &&& #[trigger] index_updated(
                            &old(self).middleware()[at]->ToolSearch_0,
                            cached_tools(old(self).connected()),
                            report,
                            &after,
                        )
                        &&& final(self).middleware() == old(self).middleware().update(
                            at,
                            ProxyMiddleware::ToolSearch(after),
                        )
                    },
            },
    {
        proof {
            use_type_invariant(&*self);
        }
        let current_tools: Vec<Tool> = self.get_all_tools_from_cache();
        match find_search(&self.middleware) {
            None => None,
            Some(at) => {
                let mut middleware: Vec<ProxyMiddleware> = Vec::new();
                std::mem::swap(&mut middleware, &mut self.middleware);
                let mut report: IndexReport = IndexReport::NoWriter;
                if let ProxyMiddleware::ToolSearch(search) = &mut middleware[at] {
                    report = search.refresh_tool_index(&current_tools);
                }
                proof {
                    let after = middleware@[at as int]->ToolSearch_0;
                    assert(is_first_search(old(self).middleware(), at as int));
                    assert(index_updated(
                        &old(self).middleware()[at as int]->ToolSearch_0,
                        cached_tools(old(self).connected()),
                        report,
                        &after,
                    ));
                    assert(middleware@ =~= old(self).middleware().update(
                        at as int,
                        ProxyMiddleware::ToolSearch(after),
                    ));
                }
                self.middleware = middleware;
                Some(report)
            },
        }
    }
}

/// Where a call of a tool goes.
#[derive(Clone, Debug, PartialEq, Eq)]
pub enum CallRoute {
    /// To the tool search of the proxy.
    Search,
    /// To the tool of a connected server.
    Server { server: String, tool: String },
}

/// Where a call of a tool goes, with the texts as characters.
pub enum CallRouteView {
    Search,
    Server { server: Seq<char>, tool: Seq<char> },
}

impl View for CallRoute {
    type V = CallRouteView;

    open spec fn view(&self) -> CallRouteView {
        match self {
            CallRoute::Search => CallRouteView::Search,
            CallRoute::Server { server, tool } => CallRouteView::Server {
                server: server@,
                tool: tool@,
            },
        }
    }
}

/// Where a call of a tool goes. The search tool is a tool of the proxy; the name
/// of any other has the name of a connected server before it.
pub open spec fn routed(servers: Seq<ConnectedServerView>, tool_name: Seq<char>) -> Result<
    CallRouteView,
    ProxyErrorView,
> {
    if tool_name == search_tool_name() {
        Ok(CallRouteView::Search)
    } else {
        match parted(tool_name) {
            None => Err(
                ProxyErrorView::InvalidFormat("Invalid prefixed name format: "@ + tool_name),
            ),
            Some((server, tool)) => if has_server(servers, server) {
                Ok(CallRouteView::Server { server, tool })
            } else {
                Err(ProxyErrorView::ServerNotFound(server))
            },
        }
    }
}

/// Why a call of a tool failed.
pub enum CallFailure<E> {
    /// The server answered with this error.
    Answered(E),
    /// There was no answer, and why.
    NotAnswered(String),
}

impl ProxyServer {
    /// Where a call of a tool goes.
    pub fn call_tool_on_server(&self, tool_name: &str) -> (res: Result<CallRoute, ProxyError>)
        ensures
            match (res, routed(self.connected(), tool_name@)) {
                (Ok(route), Ok(expected)) => route@ == expected,
                (Err(error), Err(expected)) => error@ == expected,
                _ => false,
            },
    {
        if same_text(tool_name, "search_available_tools") {
            return Ok(CallRoute::Search);
        }
        match extract_server_and_name(tool_name) {
            Err(error) => Err(error),
            Ok((server, tool)) => {
                if find_server(&self.servers, server) < self.servers.len() {
                    Ok(CallRoute::Server { server: server.to_string(), tool: tool.to_string() })
                } else {
                    Err(ProxyError::server_not_found(server))
                }
            },
        }
    }
}

/// A failed call is answered with the given error: that of the server, else one of the
/// proxy.
pub open spec fn is_passed_on<E>(
    server_name: Seq<char>,
    failure: CallFailure<E>,
    error: Result<E, RpcError>,
) -> bool {
    match (failure, error) {
        (CallFailure::Answered(answer), Ok(passed_on)) => passed_on == answer,
        (CallFailure::NotAnswered(reason), Err(error)) => error.kind == RpcErrorKind::InternalError
            && error.message@ == "Failed to call tool on server "@ + server_name + ": "@ + reason@,
        _ => false,
    }
}

/// The error that a failed call is answered with: that of the server, else one of
/// the proxy.
pub fn call_error<E>(server_name: &str, failure: CallFailure<E>) -> (error: Result<E, RpcError>)
    ensures
        match (failure, error) {
            (CallFailure::Answered(answer), Ok(passed_on)) => passed_on == answer,
            (CallFailure::NotAnswered(reason), Err(error)) => error.kind
                == RpcErrorKind::InternalError && error.message@
                == "Failed to call tool on server "@ + server_name@ + ": "@ + reason@,
            _ => false,
        },
        is_passed_on(server_name@, failure, error),
{
    match failure {
        CallFailure::Answered(answer) => Ok(answer),
        CallFailure::NotAnswered(reason) => Err(
            RpcError {
                kind: RpcErrorKind::InternalError,
                message: joined("Failed to call tool on server ", server_name).concat(
                    ": ",
                ).concat(reason.as_str()),
            },
        ),
    }
}

/// The name of the search tool has no separator in it.
proof fn lemma_search_tool_has_no_server()
    ensures
        !occurs_in(search_tool_name(), separator()),
{
    reveal_strlit("search_available_tools");
    reveal_strlit("___");
    let name = search_tool_name();
    assert forall|at: int| !occurs_at(name, separator(), at) by {
        if occurs_at(name, separator(), at) {
            let found = name.subrange(at, at + 3);
            assert(found[0] == '_' && found[1] == '_');
            assert(name[at] == '_' && name[at + 1] == '_');
        }
    }
}

/// A call of a tool by the name that a listing gives it goes to the server that
/// offers the tool, and by the name that the server gave it.
pub proof fn law_listed_tool_reaches_its_server(
    servers: Seq<ConnectedServerView>,
    server: Seq<char>,
    tool: Seq<char>,
)
    requires
        is_plain(server),
        has_server(servers, server),
    ensures
        routed(servers, prefixed(server, tool)) == Ok::<CallRouteView, ProxyErrorView>(
            CallRouteView::Server { server, tool },
        ),
{
    law_prefix_is_undone(server, tool);
    lemma_search_tool_has_no_server();
    let at = server.len() as int;
    assert(prefixed(server, tool).subrange(at, at + separator().len()) =~= separator());
    assert(occurs_at(prefixed(server, tool), separator(), at));
}

/// A call goes to a server only where that server is connected, and by the name
/// that is left when the name of the server and the separator are taken off.
pub proof fn law_call_reaches_connected_servers_only(
    servers: Seq<ConnectedServerView>,
    tool_name: Seq<char>,
)
    ensures
        routed(servers, tool_name) matches Ok(CallRouteView::Server { server, tool })
            ==> has_server(servers, server) && prefixed(server, tool) == tool_name,
{
    law_parting_is_undone(tool_name);
}

/// While no server is connected, as after a shutdown, no call goes to one.
pub proof fn law_nothing_is_reached_without_servers(tool_name: Seq<char>)
    ensures
        routed(Seq::empty(), tool_name) matches Ok(route) ==> route == CallRouteView::Search,
{
}

/// Each tool that is listed, before the middleware, is a tool that a server
/// answered with, and has the name of that server before its own.
pub proof fn law_listed_tools_are_of_servers(answers: Seq<Answer<Tool>>, i: int)
    requires
        0 <= i < answered_tools(answers).len(),
    ensures
        exists|k: int, j: int|
            {
                &&& 0 <= k < answers.len()
                &&& answers[k].1 is Ok
                &&& 0 <= j < answers[k].1->Ok_0@.len()
                &&& answered_tools(answers)[i] == #[trigger] prefixed_tool(
                    answers[k].0@,
                    answers[k].1->Ok_0@[j]@,
                )
            },
    decreases answers.len(),
{
    let start = answers.drop_last();
    let before = answered_tools(start);
    if i < before.len() {
        law_listed_tools_are_of_servers(start, i);
        let (k, j) = choose|k: int, j: int|
            {
                &&& 0 <= k < start.len()
                &&& start[k].1 is Ok
                &&& 0 <= j < start[k].1->Ok_0@.len()
                &&& before[i] == #[trigger] prefixed_tool(start[k].0@, start[k].1->Ok_0@[j]@)
            };
        assert(start[k] == answers[k]);
        assert(answered_tools(answers)[i] == prefixed_tool(
            answers[k].0@,
            answers[k].1->Ok_0@[j]@,
        ));
    } else {
        let k = answers.len() - 1;
        let j = i - before.len();
        assert(answered_tools(answers)[i] == prefixed_tool(
            answers[k].0@,
            answers[k].1->Ok_0@[j]@,
        ));
    }
}

/// Each prompt that is listed, before the middleware, is a prompt that a server
/// answered with, and has the name of that server before its own.
pub proof fn law_listed_prompts_are_of_servers(answers: Seq<Answer<Prompt>>, i: int)
    requires
        0 <= i < answered_prompts(answers).len(),
    ensures
        exists|k: int, j: int|
            {
                &&& 0 <= k < answers.len()
                &&& answers[k].1 is Ok
                &&& 0 <= j < answers[k].1->Ok_0@.len()
                &&& answered_prompts(answers)[i] == #[trigger] prefixed_prompt(
                    answers[k].0@,
                    answers[k].1->Ok_0@[j]@,
                )
            },
    decreases answers.len(),
{
    let start = answers.drop_last();
    let before = answered_prompts(start);
    if i < before.len() {
        law_listed_prompts_are_of_servers(start, i);
        let (k, j) = choose|k: int, j: int|
            {
                &&& 0 <= k < start.len()
                &&& start[k].1 is Ok
                &&& 0 <= j < start[k].1->Ok_0@.len()
                &&& before[i] == #[trigger] prefixed_prompt(start[k].0@, start[k].1->Ok_0@[j]@)
            };
        assert(start[k] == answers[k]);
        assert(answered_prompts(answers)[i] == prefixed_prompt(
            answers[k].0@,
            answers[k].1->Ok_0@[j]@,
        ));
    } else {
        let k = answers.len() - 1;
        let j = i - before.len();
        assert(answered_prompts(answers)[i] == prefixed_prompt(
            answers[k].0@,
            answers[k].1->Ok_0@[j]@,
        ));
    }
}

/// Each resource that is listed, before the middleware, is a resource that a
/// server answered with, and has the name of that server before its own and
/// before its URI.
pub proof fn law_listed_resources_are_of_servers(answers: Seq<Answer<Resource>>, i: int)
    requires
        0 <= i < answered_resources(answers).len(),
    ensures
        exists|k: int, j: int|
            {
                &&& 0 <= k < answers.len()
                &&& answers[k].1 is Ok
                &&& 0 <= j < answers[k].1->Ok_0@.len()
                &&& answered_resources(answers)[i] == #[trigger] prefixed_resource(
                    answers[k].0@,
                    answers[k].1->Ok_0@[j]@,
                )
            },
    decreases answers.len(),
{
    let start = answers.drop_last();
    let before = answered_resources(start);
    if i < before.len() {
        law_listed_resources_are_of_servers(start, i);
        let (k, j) = choose|k: int, j: int|
            {
                &&& 0 <= k < start.len()
                &&& start[k].1 is Ok
                &&& 0 <= j < start[k].1->Ok_0@.len()
                &&& before[i] == #[trigger] prefixed_resource(start[k].0@, start[k].1->Ok_0@[j]@)
            };
        assert(start[k] == answers[k]);
        assert(answered_resources(answers)[i] == prefixed_resource(
            answers[k].0@,
            answers[k].1->Ok_0@[j]@,
        ));
    } else {
        let k = answers.len() - 1;
        let j = i - before.len();
        assert(answered_resources(answers)[i] == prefixed_resource(
            answers[k].0@,
            answers[k].1->Ok_0@[j]@,
        ));
    }
}

/// The tools of some answers and of others are listed one after the other, and those of
/// one answer in their order, each with the name of its server before it. A server that
/// did not answer has none.
pub proof fn law_answered_tools_are_listed(
    first: Seq<Answer<Tool>>,
    second: Seq<Answer<Tool>>,
)
    ensures
        answered_tools(first + second) == answered_tools(first) + answered_tools(second),
        first.len() == 0 ==> answered_tools(first).len() == 0,
        first.len() == 1 ==> match first[0].1 {
            Ok(items) => {
                &&& answered_tools(first).len() == items@.len()
                &&& forall|j: int|
                    0 <= j < items@.len() ==> #[trigger] answered_tools(first)[j]
                        == prefixed_tool(first[0].0@, items@[j]@)
            },
            Err(_) => answered_tools(first).len() == 0,
        },
    decreases second.len(),
{
    if first.len() == 1 {
        assert(first.drop_last().len() == 0);
        assert(answered_tools(first.drop_last()).len() == 0);
        assert(first.last() == first[0]);
    }
    if second.len() == 0 {
        assert(first + second =~= first);
        assert(answered_tools(first) + answered_tools(second) =~= answered_tools(first));
    } else {
        law_answered_tools_are_listed(first, second.drop_last());
        assert((first + second).drop_last() =~= first + second.drop_last());
        assert(answered_tools(first + second) =~= answered_tools(first) + answered_tools(
            second,
        ));
    }
}

/// Each tool of each answer is listed, whatever the other answers are.
pub proof fn law_every_tool_is_listed(answers: Seq<Answer<Tool>>, k: int, j: int)
    requires
        0 <= k < answers.len(),
        answers[k].1 is Ok,
        0 <= j < answers[k].1->Ok_0@.len(),
    ensures
        answered_tools(answers).contains(
            prefixed_tool(answers[k].0@, answers[k].1->Ok_0@[j]@),
        ),
{
    let before = answers.take(k);
    let here = seq![answers[k]];
    let behind = answers.skip(k + 1);
    assert(answers =~= before + here + behind);
    law_answered_tools_are_listed(before, here);
    law_answered_tools_are_listed(before + here, behind);
    law_answered_tools_are_listed(here, behind);
    let i = answered_tools(before).len() + j;
    assert(answered_tools(here)[j] == prefixed_tool(
        answers[k].0@,
        answers[k].1->Ok_0@[j]@,
    ));
    assert(answered_tools(answers)[i] == answered_tools(here)[j]);
}

/// The prompts of some answers and of others are listed one after the other, and those of
/// one answer in their order, each with the name of its server before it. A server that
/// did not answer has none.
pub proof fn law_answered_prompts_are_listed(
    first: Seq<Answer<Prompt>>,
    second: Seq<Answer<Prompt>>,
)
    ensures
        answered_prompts(first + second) == answered_prompts(first) + answered_prompts(second),
        first.len() == 0 ==> answered_prompts(first).len() == 0,
        first.len() == 1 ==> match first[0].1 {
            Ok(items) => {
                &&& answered_prompts(first).len() == items@.len()
                &&& forall|j: int|
                    0 <= j < items@.len() ==> #[trigger] answered_prompts(first)[j]
                        == prefixed_prompt(first[0].0@, items@[j]@)
            },
            Err(_) => answered_prompts(first).len() == 0,
        },
    decreases second.len(),
{
    if first.len() == 1 {
        assert(first.drop_last().len() == 0);
        assert(answered_prompts(first.drop_last()).len() == 0);
        assert(first.last() == first[0]);
    }
    if second.len() == 0 {
        assert(first + second =~= first);
        assert(answered_prompts(first) + answered_prompts(second) =~= answered_prompts(first));
    } else {
        law_answered_prompts_are_listed(first, second.drop_last());
        assert((first + second).drop_last() =~= first + second.drop_last());
        assert(answered_prompts(first + second) =~= answered_prompts(first) + answered_prompts(
            second,
        ));
    }
}

/// Each prompt of each answer is listed, whatever the other answers are.
pub proof fn law_every_prompt_is_listed(answers: Seq<Answer<Prompt>>, k: int, j: int)
    requires
        0 <= k < answers.len(),
        answers[k].1 is Ok,
        0 <= j < answers[k].1->Ok_0@.len(),
    ensures
        answered_prompts(answers).contains(
            prefixed_prompt(answers[k].0@, answers[k].1->Ok_0@[j]@),
        ),
{
    let before = answers.take(k);
    let here = seq![answers[k]];
    let behind = answers.skip(k + 1);
    assert(answers =~= before + here + behind);
    law_answered_prompts_are_listed(before, here);
    law_answered_prompts_are_listed(before + here, behind);
    law_answered_prompts_are_listed(here, behind);
    let i = answered_prompts(before).len() + j;
    assert(answered_prompts(here)[j] == prefixed_prompt(
        answers[k].0@,
        answers[k].1->Ok_0@[j]@,
    ));
    assert(answered_prompts(answers)[i] == answered_prompts(here)[j]);
}

/// The resources of some answers and of others are listed one after the other, and those of
/// one answer in their order, each with the name of its server before it. A server that
/// did not answer has none.
pub proof fn law_answered_resources_are_listed(
    first: Seq<Answer<Resource>>,
    second: Seq<Answer<Resource>>,
)
    ensures
        answered_resources(first + second) == answered_resources(first) + answered_resources(second),
        first.len() == 0 ==> answered_resources(first).len() == 0,
        first.len() == 1 ==> match first[0].1 {
            Ok(items) => {
                &&& answered_resources(first).len() == items@.len()
                &&& forall|j: int|
                    0 <= j < items@.len() ==> #[trigger] answered_resources(first)[j]
                        == prefixed_resource(first[0].0@, items@[j]@)
            },
            Err(_) => answered_resources(first).len() == 0,
        },
    decreases second.len(),
{
    if first.len() == 1 {
        assert(first.drop_last().len() == 0);
        assert(answered_resources(first.drop_last()).len() == 0);
        assert(first.last() == first[0]);
    }
    if second.len() == 0 {
        assert(first + second =~= first);
        assert(answered_resources(first) + answered_resources(second) =~= answered_resources(first));
    } else {
        law_answered_resources_are_listed(first, second.drop_last());
        assert((first + second).drop_last() =~= first + second.drop_last());
        assert(answered_resources(first + second) =~= answered_resources(first) + answered_resources(
            second,
        ));
    }
}

/// Each resource of each answer is listed, whatever the other answers are.
pub proof fn law_every_resource_is_listed(answers: Seq<Answer<Resource>>, k: int, j: int)
    requires
        0 <= k < answers.len(),
        answers[k].1 is Ok,
        0 <= j < answers[k].1->Ok_0@.len(),
    ensures
        answered_resources(answers).contains(
            prefixed_resource(answers[k].0@, answers[k].1->Ok_0@[j]@),
        ),
{
    let before = answers.take(k);
    let here = seq![answers[k]];
    let behind = answers.skip(k + 1);
    assert(answers =~= before + here + behind);
    law_answered_resources_are_listed(before, here);
    law_answered_resources_are_listed(before + here, behind);
    law_answered_resources_are_listed(here, behind);
    let i = answered_resources(before).len() + j;
    assert(answered_resources(here)[j] == prefixed_resource(
        answers[k].0@,
        answers[k].1->Ok_0@[j]@,
    ));
    assert(answered_resources(answers)[i] == answered_resources(here)[j]);
}

/// With the name of its server before it, an item has the server, the separator and its
/// own name as its name, and a resource has its URI so too; nothing else of it changes.
pub proof fn law_prefixed_items(
    server: Seq<char>,
    tool: ToolView,
    prompt: PromptView,
    resource: ResourceView,
)
    ensures
        prefixed_tool(server, tool).name == server + "___"@ + tool.name,
        prefixed_tool(server, tool).description == tool.description,
        prefixed_tool(server, tool).input_schema == tool.input_schema,
        prefixed_tool(server, tool).annotations == tool.annotations,
        prefixed_prompt(server, prompt).name == server + "___"@ + prompt.name,
        prefixed_prompt(server, prompt).description == prompt.description,
        prefixed_prompt(server, prompt).arguments == prompt.arguments,
        prefixed_resource(server, resource).name == server + "___"@ + resource.name,
        prefixed_resource(server, resource).uri == server + "___"@ + resource.uri,
        prefixed_resource(server, resource).description == resource.description,
        prefixed_resource(server, resource).mime_type == resource.mime_type,
        prefixed_resource(server, resource).size == resource.size,
        prefixed_resource(server, resource).annotations == resource.annotations,
{
}

/// The remembered tools of some servers and of others come one after the other, and
/// those of one server in their order, each with the name of the server before it.
pub proof fn law_cached_tools(
    first: Seq<ConnectedServerView>,
    second: Seq<ConnectedServerView>,
)
    ensures
        cached_tools(first + second) == cached_tools(first) + cached_tools(second),
        first.len() == 0 ==> cached_tools(first).len() == 0,
        first.len() == 1 ==> {
            &&& cached_tools(first).len() == first[0].tools.len()
            &&& forall|j: int|
                0 <= j < first[0].tools.len() ==> #[trigger] cached_tools(first)[j]
                    == prefixed_tool(first[0].name, first[0].tools[j])
        },
    decreases second.len(),
{
    if first.len() == 1 {
        assert(first.drop_last().len() == 0);
        assert(cached_tools(first.drop_last()).len() == 0);
        assert(first.last() == first[0]);
    }
    if second.len() == 0 {
        assert(first + second =~= first);
        assert(cached_tools(first) + cached_tools(second) =~= cached_tools(first));
    } else {
        law_cached_tools(first, second.drop_last());
        assert((first + second).drop_last() =~= first + second.drop_last());
        assert(cached_tools(first + second) =~= cached_tools(first) + cached_tools(second));
    }
}

/// Each tool of each connected server is remembered.
pub proof fn law_every_tool_is_cached(servers: Seq<ConnectedServerView>, k: int, j: int)
    requires
        0 <= k < servers.len(),
        0 <= j < servers[k].tools.len(),
    ensures
        cached_tools(servers).contains(prefixed_tool(servers[k].name, servers[k].tools[j])),
{
    let before = servers.take(k);
    let here = seq![servers[k]];
    let behind = servers.skip(k + 1);
    assert(servers =~= before + here + behind);
    law_cached_tools(before, here);
    law_cached_tools(before + here, behind);
    law_cached_tools(here, behind);
    let i = cached_tools(before).len() + j;
    assert(cached_tools(here)[j] == prefixed_tool(servers[k].name, servers[k].tools[j]));
    assert(cached_tools(servers)[i] == cached_tools(here)[j]);
}

/// What asking for one kind of items gave decides that kind alone: a server has exactly
/// the items of the answer, in their order, and none of a kind that could not be had.
pub proof fn law_each_kind_is_offered(
    name: Seq<char>,
    tools: Result<Vec<Tool>, String>,
    prompts: Result<Vec<Prompt>, String>,
    resources: Result<Vec<Resource>, String>,
)
    ensures
        ({
            let server = offering(name, tools, prompts, resources);
            &&& server.name == name
            &&& tools is Err ==> server.tools.len() == 0
            &&& tools matches Ok(items) ==> server.tools.len() == items@.len() && forall|i: int|
                0 <= i < items@.len() ==> #[trigger] server.tools[i] == items@[i]@
            &&& prompts is Err ==> server.prompts.len() == 0
            &&& prompts matches Ok(items) ==> server.prompts.len() == items@.len() && forall|i: int|
                0 <= i < items@.len() ==> #[trigger] server.prompts[i] == items@[i]@
            &&& resources is Err ==> server.resources.len() == 0
            &&& resources matches Ok(items) ==> server.resources.len() == items@.len() && forall|
                i: int,
            |
                0 <= i < items@.len() ==> #[trigger] server.resources[i] == items@[i]@
        }),
{
}

/// A server that is counted among others is one of them, with all that it offers. The
/// servers of other names stay as they are, and no others come.
pub proof fn law_server_is_counted(
    servers: Seq<ConnectedServerView>,
    server: ConnectedServerView,
    other: ConnectedServerView,
)
    requires
        unique_servers(servers),
    ensures
        with_server(servers, server).contains(server),
        other.name != server.name ==> (with_server(servers, server).contains(other)
            <==> servers.contains(other)),
        other.name == server.name ==> (with_server(servers, server).contains(other) <==> other
            == server),
        with_server(servers, server).len() == if has_server(servers, server.name) {
            servers.len()
        } else {
            servers.len() + 1
        },
{
    let after = with_server(servers, server);
    if has_server(servers, server.name) {
        let at = choose|i: int| 0 <= i < servers.len() && (#[trigger] servers[i]).name
            == server.name;
        lemma_with_server(servers, server, at);
        assert(after[at] == server);
        if after.contains(other) {
            let i = choose|i: int| 0 <= i < after.len() && after[i] == other;
            if i != at {
                assert(servers[i] == other);
                assert(servers[i].name != servers[at].name);
            }
        }
        if servers.contains(other) && other.name != server.name {
            let i = choose|i: int| 0 <= i < servers.len() && servers[i] == other;
            assert(after[i] == other);
        }
    } else {
        lemma_with_server(servers, server, servers.len() as int);
        assert(after[servers.len() as int] == server);
        if after.contains(other) {
            let i = choose|i: int| 0 <= i < after.len() && after[i] == other;
            if i < servers.len() {
                assert(servers[i] == other);
            }
        }
        if servers.contains(other) {
            let i = choose|i: int| 0 <= i < servers.len() && servers[i] == other;
            assert(after[i] == other);
        }
    }
}

/// Each tool that a server answered with when it was connected to is remembered,
/// whatever asking it for prompts and resources gave.
pub proof fn law_connected_tools_are_cached(
    servers: Seq<ConnectedServerView>,
    name: Seq<char>,
    tools: Result<Vec<Tool>, String>,
    prompts: Result<Vec<Prompt>, String>,
    resources: Result<Vec<Resource>, String>,
    j: int,
)
    requires
        unique_servers(servers),
        tools is Ok,
        0 <= j < tools->Ok_0@.len(),
    ensures
        cached_tools(with_server(servers, offering(name, tools, prompts, resources))).contains(
            prefixed_tool(name, tools->Ok_0@[j]@),
        ),
{
    let server = offering(name, tools, prompts, resources);
    let after = with_server(servers, server);
    law_each_kind_is_offered(name, tools, prompts, resources);
    law_server_is_counted(servers, server, server);
    let k = choose|k: int| 0 <= k < after.len() && after[k] == server;
    assert(server.tools[j] == tools->Ok_0@[j]@);
    law_every_tool_is_cached(after, k, j);
}

/// Items that were had are items. An error with the number of a missing method in it
/// says that a kind is not supported, where a server need not have the kind; any other
/// error is a failure.
pub proof fn law_fetched(before: Seq<char>, behind: Seq<char>, reason: Seq<char>)
    ensures
        forall|optional: bool| fetch_of(None, optional) == Fetched::Items,
        fetch_of(Some(before + "-32601"@ + behind), true) == Fetched::Unsupported,
        fetch_of(Some(reason), false) == Fetched::Failed,
        (forall|at: int|
            0 <= at && at + 6 <= reason.len() ==> #[trigger] reason.subrange(at, at + 6)
                != "-32601"@) ==> fetch_of(Some(reason), true) == Fetched::Failed,
{
    reveal_strlit("-32601");
    let text = before + "-32601"@ + behind;
    let at = before.len() as int;
    assert(text.subrange(at, at + 6) =~= "-32601"@);
    assert(occurs_at(text, "-32601"@, at));
    if occurs_in(reason, "-32601"@) {
        let found = choose|at: int| occurs_at(reason, "-32601"@, at);
        assert(reason.subrange(found, found + 6) == "-32601"@);
    }
}

/// Each server is told to be connected or not, by how connecting to it ended, in the
/// order of the results.
pub proof fn law_results_are_summarized(
    first: Seq<ConnectResult>,
    second: Seq<ConnectResult>,
)
    ensures
        connected_names(first + second) == connected_names(first) + connected_names(second),
        failed_servers(first + second) == failed_servers(first) + failed_servers(second),
        connected_names(second).len() + failed_servers(second).len() == second.len(),
        second.len() == 1 ==> match second[0] {
            Ok(name) => connected_names(second) == seq![name@],
            Err((name, error)) => failed_servers(second) == seq![(name@, error@)],
        },
    decreases second.len(),
{
    if second.len() == 0 {
        assert(first + second =~= first);
        assert(connected_names(first) + connected_names(second) =~= connected_names(first));
        assert(failed_servers(first) + failed_servers(second) =~= failed_servers(first));
    } else {
        let start = second.drop_last();
        law_results_are_summarized(first, start);
        assert((first + second).drop_last() =~= first + start);
        assert(connected_names(first + second) =~= connected_names(first) + connected_names(
            second,
        ));
        assert(failed_servers(first + second) =~= failed_servers(first) + failed_servers(second));
        if second.len() == 1 {
            assert(connected_names(start) =~= Seq::<Seq<char>>::empty());
            assert(failed_servers(start) =~= Seq::<(Seq<char>, ProxyErrorView)>::empty());
            match second[0] {
                Ok(name) => assert(connected_names(second) =~= seq![name@]),
                Err((name, error)) => assert(failed_servers(second) =~= seq![(name@, error@)]),
            }
        }
    }
}

/// A call goes to the search exactly by the name of the search tool. A name without a
/// separator is an error that names it, and so is one with a server that is not
/// connected; every other call goes to a server.
pub proof fn law_calls_are_routed(servers: Seq<ConnectedServerView>, tool_name: Seq<char>)
    ensures
        routed(servers, tool_name) == Ok::<CallRouteView, ProxyErrorView>(CallRouteView::Search)
            <==> tool_name == "search_available_tools"@,
        tool_name != "search_available_tools"@ && !occurs_in(tool_name, "___"@) ==> routed(
            servers,
            tool_name,
        ) == Err::<CallRouteView, ProxyErrorView>(
            ProxyErrorView::InvalidFormat("Invalid prefixed name format: "@ + tool_name),
        ),
        occurs_in(tool_name, "___"@) ==> {
            let server = server_of(tool_name);
            &&& !has_server(servers, server) ==> routed(servers, tool_name) == Err::<
                CallRouteView,
                ProxyErrorView,
            >(ProxyErrorView::ServerNotFound(server))
            &&& has_server(servers, server) ==> (routed(servers, tool_name) matches Ok(
                CallRouteView::Server { server: reached, tool },
            ) && reached == server && server + "___"@ + tool == tool_name)
        },
{
    lemma_search_tool_has_no_server();
    law_parting_is_undone(tool_name);
}

/// The processes of other servers stay when one is forgotten.
pub proof fn law_other_processes_stay(
    processes: Seq<Seq<char>>,
    name: Seq<char>,
    other: Seq<char>,
)
    ensures
        without_process(processes, name).contains(other) <==> processes.contains(other) && other
            != name,
        without_process(processes, name).push(name).contains(name),
    decreases processes.len(),
{
    reveal(Seq::filter);
    let rest = without_process(processes, name);
    if processes.len() > 0 {
        let start = processes.drop_last();
        let last = processes.last();
        let kept = without_process(start, name);
        law_other_processes_stay(start, name, other);
        assert(processes =~= start.push(last));
        assert(rest == if last != name {
            kept.push(last)
        } else {
            kept
        });
        assert(processes.contains(other) <==> start.contains(other) || other == last) by {
            if start.contains(other) {
                let i = choose|i: int| 0 <= i < start.len() && start[i] == other;
                assert(processes[i] == other);
            }
            assert(processes[processes.len() - 1] == last);
        }
        assert(kept.push(last).contains(other) <==> kept.contains(other) || other == last) by {
            if kept.contains(other) {
                let i = choose|i: int| 0 <= i < kept.len() && kept[i] == other;
                assert(kept.push(last)[i] == other);
            }
            assert(kept.push(last)[kept.len() as int] == last);
        }
    }
    assert(rest.push(name)[rest.len() as int] == name);
}

/// The query of a call is the first member of its arguments that is called so, where
/// that is a text. Without arguments, or without such a member, there is none.
pub proof fn law_query_is_an_argument(
    members: Seq<(Seq<char>, JsonView)>,
    at: int,
)
    ensures
        query_of(None) is None,
        (forall|i: int| 0 <= i < members.len() ==> (#[trigger] members[i]).0 != "query"@)
            ==> query_of(Some(JsonView::Object(members))) is None,
        0 <= at < members.len() && members[at].0 == "query"@ && (forall|i: int|
            0 <= i < at ==> (#[trigger] members[i]).0 != "query"@) ==> query_of(
            Some(JsonView::Object(members)),
        ) == (match members[at].1 {
            JsonView::Text(text) => Some(text),
            _ => None,
        }),
{
    law_first_named(members, "query"@, at);
}

/// What a call of a tool is answered with.
#[derive(Clone, Debug, PartialEq, Eq)]
pub struct CallReply {
    pub text: String,
    pub is_error: bool,
}

/// The query among the arguments of the search tool.
pub open spec fn query_of(arguments: Option<JsonView>) -> Option<Seq<char>> {
    match arguments {
        Some(arguments) => match arguments.member("query"@) {
            Some(query) => query.text(),
            None => None,
        },
        None => None,
    }
}

/// The arguments of a call, with their texts as characters.
pub open spec fn arguments_view(arguments: Option<&JsonValue>) -> Option<JsonView> {
    match arguments {
        Some(arguments) => Some(arguments.view()),
        None => None,
    }
}

/// What is said of one search result: its number in the list, its name, and its
/// description where it has one.
pub open spec fn result_entry(number: nat, tool: ToolView) -> Seq<char> {
    decimal(number) + ". **"@ + tool.name + "**"@ + (match tool.description {
        Some(description) => "\n   "@ + description,
        None => Seq::empty(),
    }) + "\n\n"@
}

/// What is said of search results, one after the other.
pub open spec fn result_entries(tools: Seq<ToolView>) -> Seq<char>
    decreases tools.len(),
{
    if tools.len() == 0 {
        Seq::empty()
    } else {
        result_entries(tools.drop_last()) + result_entry(tools.len(), tools.last())
    }
}

/// What a search is answered with.
pub open spec fn search_reply(query: Seq<char>, results: Seq<ToolView>) -> Seq<char> {
    if results.len() == 0 {
        "No tools found matching '"@ + query + "'. Try a different search term."@
    } else {
        "Found "@ + decimal(results.len()) + " tool(s) matching '"@ + query + "':\n\n"@
            + result_entries(results)
            + "These tools are now available in your current session. Use `tools/list` to see the updated tool list."@
    }
}

/// What a search is answered with.
pub fn search_reply_text(query: &str, results: &Vec<Tool>) -> (text: String)
    ensures
        text@ == search_reply(query@, tools_view(results@)),
{
    let ghost seen = tools_view(results@);
    if results.len() == 0 {
        return joined("No tools found matching '", query).concat(
            "'. Try a different search term.",
        );
    }
    let mut text: String = joined("Found ", decimal_text(results.len() as u64).as_str()).concat(
        " tool(s) matching '",
    ).concat(query).concat("':\n\n");
    let ghost head = text@;
    let mut i: usize = 0;
    assert(seen.take(0) =~= Seq::<ToolView>::empty());
    assert(head + result_entries(seen.take(0)) =~= head);
    while i < results.len()
        invariant
            i <= results.len(),
            seen == tools_view(results@),
            text@ == head + result_entries(seen.take(i as int)),
        decreases results.len() - i,
    {
        let ghost before = text@;
        let number: u64 = i as u64 + 1;
        text = text.concat(decimal_text(number).as_str()).concat(". **").concat(
            results[i].name.as_str(),
        ).concat("**");
        if let Some(description) = &results[i].description {
            text = text.concat("\n   ").concat(description.as_str());
        }
        text = text.concat("\n\n");
        proof {
            assert(seen.take(i + 1).drop_last() =~= seen.take(i as int));
            assert(seen.take(i + 1).last() == results@[i as int]@);
            assert(text@ =~= before + result_entry((i + 1) as nat, results@[i as int]@));
            assert(text@ =~= head + result_entries(seen.take(i + 1)));
        }
        i = i + 1;
    }
    assert(seen.take(i as int) =~= seen);
    text.concat(
        "These tools are now available in your current session. Use `tools/list` to see the updated tool list.",
    )
}

/// How search results change the tool search: they are exposed, unless there are
/// none.
pub open spec fn results_exposed(
    before: &ToolSearchMiddleware,
    results: Seq<ToolView>,
    after: &ToolSearchMiddleware,
) -> bool {
    if results.len() == 0 {
        after == before
    } else {
        &&& after.exposed() == results
        &&& after.injected()
        &&& after.config() == before.config()
        &&& after.stored() == before.stored()
        &&& after.indexed() == before.indexed()
    }
}

/// Answers a search, from its results, and exposes them.
pub fn present_results(search: &mut ToolSearchMiddleware, query: &str, results: Vec<Tool>) -> (reply:
    CallReply)
    ensures
        reply.text@ == search_reply(query@, tools_view(results@)),
        !reply.is_error,
        results_exposed(&*old(search), tools_view(results@), &*final(search)),
{
    let text: String = search_reply_text(query, &results);
    assert(tools_view(results@).len() == results@.len());
    if results.len() > 0 {
        search.update_exposed_tools(results);
    }
    CallReply { text, is_error: false }
}

impl ProxyServer {
    /// The call of the search tool can be answered: there is no query, or the
    /// tool search, where there is one, can make the search.
    pub open spec fn searchable(&self, arguments: Option<JsonView>) -> bool {
        query_of(arguments) matches Some(query) ==> forall|at: int| #[trigger]
            is_first_search(self.middleware(), at) ==> (
            self.middleware()[at]->ToolSearch_0).searchable(query)
    }

    /// Whether the call of the search tool can be answered.
    pub fn can_search(&self, arguments: Option<&JsonValue>) -> (can: bool)
        ensures
            can == self.searchable(arguments_view(arguments)),
    {
        match (read_query(arguments), find_search(&self.middleware)) {
            (Some(query), Some(at)) => {
                let can: bool = match &self.middleware[at] {
                    ProxyMiddleware::ToolSearch(search) => search.can_search(query),
                    ProxyMiddleware::DescriptionEnricher(_) => true,
                };
                assert(is_first_search(self.middleware(), at as int));
                can
            },
            _ => true,
        }
    }

    /// Answers a call of the search tool.
    pub fn handle_search_tool_call(&mut self, arguments: Option<&JsonValue>) -> (res: Result<
        CallReply,
        RpcError,
    >)
        requires
            old(self).searchable(arguments_view(arguments)),
        ensures
            final(self).config() == old(self).config(),
            final(self).connected() == old(self).connected(),
            final(self).processes() == old(self).processes(),
            search_call_answered(
                old(self).middleware(),
                query_of(arguments_view(arguments)),
                res,
                final(self).middleware(),
            ),
    {
        proof {
            use_type_invariant(&*self);
        }
        let query: &str = match read_query(arguments) {
            Some(query) => query,
            None => {
                return Err(
                    RpcError {
                        kind: RpcErrorKind::InvalidParams,
                        message: "Missing required 'query' parameter".to_string(),
                    },
                );
            },
        };
        match find_search(&self.middleware) {
            None => Err(
                RpcError {
                    kind: RpcErrorKind::InternalError,
                    message: "Tool search middleware not found".to_string(),
                },
            ),
            Some(at) => {
                assert(is_first_search(old(self).middleware(), at as int));
                let mut middleware: Vec<ProxyMiddleware> = Vec::new();
                std::mem::swap(&mut middleware, &mut self.middleware);
                let ghost before = middleware@;
                let mut reply = CallReply { text: String::new(), is_error: false };
                let ghost mut hits: Seq<(u32, Option<Seq<char>>)> = Seq::empty();
                if let ProxyMiddleware::ToolSearch(search) = &mut middleware[at] {
                    let results: Vec<Tool> = search.search_tools(query);
                    proof {
                        let first = before[at as int]->ToolSearch_0;
                        hits = choose|hits: Seq<(u32, Option<Seq<char>>)>|
                            {
                                &&& #[trigger] may_hit(
                                    first.indexed(),
                                    first.config().max_tools_limit as nat,
                                    query@,
                                    hits,
                                )
                                &&& tools_view(results@) == tools_of_hits(
                                    first.stored(),
                                    first.config().search_threshold,
                                    hits,
                                )
                            };
                    }
                    reply = present_results(search, query, results);
                }
                let ghost after = middleware@[at as int]->ToolSearch_0;
                assert(middleware@ =~= before.update(
                    at as int,
                    ProxyMiddleware::ToolSearch(after),
                ));
                self.middleware = middleware;
                assert(search_answered(
                    old(self).middleware(),
                    query@,
                    at as int,
                    hits,
                    after,
                    reply.text@,
                    self.middleware(),
                ));
                Ok(reply)
            },
        }
    }
}

/// The first tool search made a search: its answer is that to the tools that
/// possible hits stand for, and these are exposed.
pub open spec fn search_answered(
    before: Seq<ProxyMiddleware>,
    query: Seq<char>,
    at: int,
    hits: Seq<(u32, Option<Seq<char>>)>,
    after: ToolSearchMiddleware,
    text: Seq<char>,
    middleware: Seq<ProxyMiddleware>,
) -> bool {
    let search = before[at]->ToolSearch_0;
    let results = tools_of_hits(search.stored(), search.config().search_threshold, hits);
    &&& is_first_search(before, at)
    &&& may_hit(search.indexed(), search.config().max_tools_limit as nat, query, hits)
    &&& text == search_reply(query, results)
    &&& results_exposed(&search, results, &after)
    &&& middleware == before.update(at, ProxyMiddleware::ToolSearch(after))
}

/// What a call of the search tool is answered with, and how it changes the
/// middleware.
pub open spec fn search_call_answered(
    before: Seq<ProxyMiddleware>,
    query: Option<Seq<char>>,
    res: Result<CallReply, RpcError>,
    after: Seq<ProxyMiddleware>,
) -> bool {
    match query {
        None => {
            &&& after == before
            &&& res matches Err(error) && error.kind == RpcErrorKind::InvalidParams
                && error.message@ == "Missing required 'query' parameter"@
        },
        Some(query) => if !has_search(before) {
            &&& after == before
            &&& res matches Err(error) && error.kind == RpcErrorKind::InternalError
                && error.message@ == "Tool search middleware not found"@
        } else {
            &&& res matches Ok(reply) && !reply.is_error && exists|
                at: int,
                hits: Seq<(u32, Option<Seq<char>>)>,
                search: ToolSearchMiddleware,
            |
                #[trigger] search_answered(before, query, at, hits, search, reply.text@, after)
        },
    }
}

/// The query among the arguments of the search tool.
fn read_query(arguments: Option<&JsonValue>) -> (query: Option<&str>)
    ensures
        match (query, query_of(arguments_view(arguments))) {
            (Some(query), Some(expected)) => query@ == expected,
            (None, None) => true,
            _ => false,
        },
{
    match arguments {
        Some(arguments) => match arguments.get("query") {
            Some(value) => value.as_str(),
            None => None,
        },
        None => None,
    }
}

impl ProxyServer {
    /// Answers a call of the search tool, where it can be answered: not where
    /// there is a search to make and the limit of the tool search is zero or too
    /// large, or the parser of queries cannot be given the query.
    pub fn answer_search_tool_call(&mut self, arguments: Option<&JsonValue>) -> (res: Option<
        Result<CallReply, RpcError>,
    >)
        ensures
            final(self).config() == old(self).config(),
            final(self).connected() == old(self).connected(),
            final(self).processes() == old(self).processes(),
            res is Some <==> old(self).searchable(arguments_view(arguments)),
            match res {
                Some(answer) => search_call_answered(
                    old(self).middleware(),
                    query_of(arguments_view(arguments)),
                    answer,
                    final(self).middleware(),
                ),
                None => final(self).middleware() == old(self).middleware(),
            },
    {
        if self.can_search(arguments) {
            Some(self.handle_search_tool_call(arguments))
        } else {
            None
        }
    }
}

/// A part stands in a text that is put together with it.
proof fn lemma_part_occurs(before: Seq<char>, part: Seq<char>, behind: Seq<char>)
    ensures
        occurs_in(before + part + behind, part),
{
    let at = before.len() as int;
    assert((before + part + behind).subrange(at, at + part.len()) =~= part);
    assert(occurs_at(before + part + behind, part, at));
}

/// What stands in a part of a text stands in the text.
proof fn lemma_inner_part_occurs(
    before: Seq<char>,
    middle: Seq<char>,
    behind: Seq<char>,
    part: Seq<char>,
)
    requires
        occurs_in(middle, part),
    ensures
        occurs_in(before + middle + behind, part),
{
    let at = choose|at: int| occurs_at(middle, part, at);
    let whole = before + middle + behind;
    let there = before.len() + at;
    assert(whole.subrange(there, there + part.len()) =~= middle.subrange(at, at + part.len()));
    assert(occurs_at(whole, part, there));
}

/// What is said of search results says of each its number, its name and its
/// description.
proof fn lemma_entries_name_results(tools: Seq<ToolView>, i: int)
    requires
        0 <= i < tools.len(),
    ensures
        occurs_in(
            result_entries(tools),
            decimal((i + 1) as nat) + ". **"@ + tools[i].name + "**"@,
        ),
        tools[i].description matches Some(text) ==> occurs_in(result_entries(tools), text),
    decreases tools.len(),
{
    let start = tools.drop_last();
    let before = result_entries(start);
    let last = tools.last();
    let entry = result_entry(tools.len(), last);
    let nothing = Seq::<char>::empty();
    if i < tools.len() - 1 {
        assert(start[i] == tools[i]);
        lemma_entries_name_results(start, i);
        let part = decimal((i + 1) as nat) + ". **"@ + tools[i].name + "**"@;
        lemma_inner_part_occurs(nothing, before, entry, part);
        assert(nothing + before + entry =~= result_entries(tools));
        if let Some(text) = tools[i].description {
            lemma_inner_part_occurs(nothing, before, entry, text);
        }
    } else {
        let head = decimal(tools.len()) + ". **"@ + last.name + "**"@;
        let described = match last.description {
            Some(text) => "\n   "@ + text,
            None => Seq::empty(),
        };
        lemma_part_occurs(before, head, described + "\n\n"@);
        assert(before + head + (described + "\n\n"@) =~= result_entries(tools));
        if let Some(text) = last.description {
            lemma_part_occurs(before + head + "\n   "@, text, "\n\n"@);
            assert(before + head + "\n   "@ + text + "\n\n"@ =~= result_entries(tools));
        }
    }
}

/// The answer to a search tells the query. Where tools were found it tells how many, and
/// of each its number, its name and its description; where none were, it says so.
pub proof fn law_reply_tells_results(query: Seq<char>, results: Seq<ToolView>, i: int)
    ensures
        occurs_in(search_reply(query, results), "'"@ + query + "'"@),
        results.len() == 0 <==> "No tools found"@.is_prefix_of(search_reply(query, results)),
        results.len() > 0 ==> ("Found "@ + decimal(results.len()) + " tool(s)"@).is_prefix_of(
            search_reply(query, results),
        ),
        results.len() == 0 ==> "Try a different search term."@.is_suffix_of(
            search_reply(query, results),
        ),
        results.len() > 0 ==> "Use `tools/list` to see the updated tool list."@.is_suffix_of(
            search_reply(query, results),
        ),
        0 <= i < results.len() ==> occurs_in(
            search_reply(query, results),
            decimal((i + 1) as nat) + ". **"@ + results[i].name + "**"@,
        ),
        0 <= i < results.len() && results[i].description is Some ==> occurs_in(
            search_reply(query, results),
            results[i].description->0,
        ),
{
    reveal_strlit("'");
    reveal_strlit("No tools found");
    reveal_strlit("No tools found matching '");
    reveal_strlit("'. Try a different search term.");
    reveal_strlit("Found ");
    reveal_strlit(" tool(s)");
    reveal_strlit(" tool(s) matching '");
    reveal_strlit("':\n\n");
    let reply = search_reply(query, results);
    let quoted = "'"@ + query + "'"@;
    if results.len() == 0 {
        let start = "No tools found matching '"@;
        let end = "'. Try a different search term."@;
        lemma_part_occurs(start.drop_last(), quoted, end.drop_first());
        assert(start.drop_last() + quoted + end.drop_first() =~= reply);
        assert(reply.take(14) =~= "No tools found"@);
        reveal_strlit("Try a different search term.");
        let advice = "Try a different search term."@;
        assert(reply.skip(reply.len() - advice.len()) =~= advice);
    } else {
        let number = decimal(results.len());
        let entries = result_entries(results);
        let end =
            "These tools are now available in your current session. Use `tools/list` to see the updated tool list."@;
        let start = "Found "@ + number + " tool(s) matching '"@;
        let middle = "':\n\n"@;
        lemma_part_occurs(start.drop_last(), quoted, middle.drop_first() + entries + end);
        assert(start.drop_last() + quoted + (middle.drop_first() + entries + end) =~= reply);
        let told = "Found "@ + number + " tool(s)"@;
        assert(reply.take(told.len() as int) =~= told);
        reveal_strlit("Use `tools/list` to see the updated tool list.");
        reveal_strlit(
            "These tools are now available in your current session. Use `tools/list` to see the updated tool list.",
        );
        let advice = "Use `tools/list` to see the updated tool list."@;
        assert(reply.skip(reply.len() - advice.len()) =~= advice);
        assert(reply[0] == 'F');
        if "No tools found"@.is_prefix_of(reply) {
            assert("No tools found"@[0] == reply.take(14)[0]);
        }
        if 0 <= i < results.len() {
            lemma_entries_name_results(results, i);
            let head = start + query + middle;
            assert(head + entries + end =~= reply);
            lemma_inner_part_occurs(
                head,
                entries,
                end,
                decimal((i + 1) as nat) + ". **"@ + results[i].name + "**"@,
            );
            if let Some(text) = results[i].description {
                lemma_inner_part_occurs(head, entries, end, text);
            }
        }
    }
}

/// What a search found is what the next listing shows first, whatever tools there are. A
/// search that found nothing leaves what is shown as it is. What can be searched stays.
pub proof fn law_results_are_listed_next(
    before: ToolSearchMiddleware,
    results: Seq<ToolView>,
    after: ToolSearchMiddleware,
    tools: Seq<ToolView>,
)
    requires
        results_exposed(&before, results, &after),
    ensures
        results.len() > 0 && before.config().enabled ==> after.shown(tools).take(
            results.len() as int,
        ) == results,
        results.len() == 0 ==> after.shown(tools) == before.shown(tools) && after.exposed()
            == before.exposed(),
        after.config() == before.config(),
        after.stored() == before.stored(),
        after.indexed() == before.indexed(),
{
    if results.len() > 0 && before.config().enabled {
        law_exposed_tools_are_shown(after.config(), results, tools);
    }
}

/// A call of the search tool without a query is an error of its parameters, and one with
/// a query is one of the proxy where there is no tool search; both change nothing. Any
/// other call is answered with the tools that the first tool search found: they are
/// stored tools, no more than the limit, the answer tells them, and they are exposed.
/// The other middleware stays as it is.
pub proof fn law_search_calls_are_answered(
    before: Seq<ProxyMiddleware>,
    query: Option<Seq<char>>,
    res: Result<CallReply, RpcError>,
    after: Seq<ProxyMiddleware>,
)
    requires
        search_call_answered(before, query, res, after),
    ensures
        query is None ==> after == before && res is Err && res->Err_0.kind
            == RpcErrorKind::InvalidParams && occurs_in(res->Err_0.message@, "query"@),
        query is Some && !has_search(before) ==> after == before && res is Err && res->Err_0.kind
            == RpcErrorKind::InternalError,
        query is Some && has_search(before) ==> res is Ok && !res->Ok_0.is_error && exists|
            at: int,
            results: Seq<ToolView>,
        |
            {
                let searched = before[at]->ToolSearch_0;
                &&& #[trigger] is_first_search(before, at)
                &&& after.len() == before.len()
                &&& forall|i: int|
                    0 <= i < before.len() && i != at ==> #[trigger] after[i] == before[i]
                &&& after[at] is ToolSearch
                &&& res->Ok_0.text@ == #[trigger] search_reply(query->0, results)
                &&& results.len() <= searched.config().max_tools_limit
                &&& forall|i: int|
                    0 <= i < results.len() ==> searched.stored().contains(#[trigger] results[i])
                &&& results.len() > 0 ==> (after[at]->ToolSearch_0).exposed() == results && (
                after[at]->ToolSearch_0).injected()
                &&& results.len() == 0 ==> after == before
                &&& exists|hits: Seq<(u32, Option<Seq<char>>)>|
                    {
                        &&& #[trigger] may_hit(
                            searched.indexed(),
                            searched.config().max_tools_limit as nat,
                            query->0,
                            hits,
                        )
                        &&& results == tools_of_hits(
                            searched.stored(),
                            searched.config().search_threshold,
                            hits,
                        )
                    }
            },
{
    match query {
        None => {
            reveal_strlit("Missing required 'query' parameter");
            reveal_strlit("query");
            let message = "Missing required 'query' parameter"@;
            assert(message.subrange(18, 23) =~= "query"@);
            assert(occurs_at(message, "query"@, 18));
        },
        Some(query) => {
            if has_search(before) {
                let (at, hits, search) = choose|
                    at: int,
                    hits: Seq<(u32, Option<Seq<char>>)>,
                    search: ToolSearchMiddleware,
                | #[trigger]
                    search_answered(before, query, at, hits, search, res->Ok_0.text@, after);
                let searched = before[at]->ToolSearch_0;
                let results = tools_of_hits(
                    searched.stored(),
                    searched.config().search_threshold,
                    hits,
                );
                law_results_are_hits(searched.stored(), searched.config().search_threshold, hits);
                law_results_are_limited(
                    searched.stored(),
                    searched.config().search_threshold,
                    searched.indexed(),
                    searched.config().max_tools_limit as nat,
                    query,
                    hits,
                );
                assert(is_first_search(before, at));
                assert(res->Ok_0.text@ == search_reply(query, results));
                if results.len() == 0 {
                    assert(after =~= before);
                }
            }
        },
    }
}

/// What is to be ended at shutdown, and how many seconds each process has.
pub struct ShutdownPlan {
    pub timeout: u64,
    /// The names of the servers whose processes are to be ended.
    pub processes: Vec<String>,
}

/// What happened to a process at shutdown.
#[derive(Clone, Copy, Debug, PartialEq, Eq, Structural)]
pub enum ShutdownEvent {
    /// The shutdown begins. The process has this number, unless it has ended.
    Begin { pid: Option<u32> },
    /// The process was asked to end.
    Asked,
    /// The process ended, or nothing more can be learnt of it.
    Ended,
    /// The process did not end in time.
    TimedOut,
}

/// What to do next with a process at shutdown.
#[derive(Clone, Copy, Debug, PartialEq, Eq, Structural)]
pub enum ShutdownStep {
    /// Ask the group of processes with this number to end.
    Ask { group: i32 },
    /// Wait for the process to end, so many seconds at most.
    Wait { seconds: u64 },
    /// End the process.
    Kill,
    /// Nothing more.
    Done,
}

/// What to do next with a process at shutdown.
pub open spec fn shutdown_step(event: ShutdownEvent, timeout: u64) -> ShutdownStep {
    match event {
        ShutdownEvent::Begin { pid: Some(pid) } if pid <= i32::MAX => ShutdownStep::Ask {
            group: (-(pid as int)) as i32,
        },
        ShutdownEvent::Begin { .. } => ShutdownStep::Wait { seconds: timeout },
        ShutdownEvent::Asked => ShutdownStep::Wait { seconds: timeout },
        ShutdownEvent::Ended => ShutdownStep::Done,
        ShutdownEvent::TimedOut => ShutdownStep::Kill,
    }
}

/// A process is asked to end before it is waited for, where it has a number, and all of
/// its group is. It is waited for as long as there is time and no longer: one that has
/// ended is left, and one that has not is ended. No other process is asked or ended.
pub proof fn law_shutdown_of_a_process(event: ShutdownEvent, pid: u32, timeout: u64)
    ensures
        shutdown_step(ShutdownEvent::Begin { pid: Some(pid) }, timeout) matches ShutdownStep::Ask {
            group,
        } ==> group == -(pid as int),
        pid <= i32::MAX ==> shutdown_step(ShutdownEvent::Begin { pid: Some(pid) }, timeout) is Ask,
        shutdown_step(event, timeout) is Kill <==> event == ShutdownEvent::TimedOut,
        shutdown_step(event, timeout) is Done <==> event == ShutdownEvent::Ended,
        shutdown_step(event, timeout) matches ShutdownStep::Wait { seconds } ==> seconds == timeout,
        shutdown_step(ShutdownEvent::Asked, timeout) is Wait,
        shutdown_step(ShutdownEvent::Begin { pid: None }, timeout) is Wait,
{
}

/// What to do next with a process at shutdown: it is asked to end where its
/// number is known, it is waited for, and it is ended where it does not end in
/// time.
pub fn next_shutdown_step(event: ShutdownEvent, timeout: u64) -> (step: ShutdownStep)
    ensures
        step == (match event {
            ShutdownEvent::Begin { pid: Some(pid) } if pid <= i32::MAX => ShutdownStep::Ask {
                group: -(pid as i32) as i32,
            },
            ShutdownEvent::Begin { .. } => ShutdownStep::Wait { seconds: timeout },
            ShutdownEvent::Asked => ShutdownStep::Wait { seconds: timeout },
            ShutdownEvent::Ended => ShutdownStep::Done,
            ShutdownEvent::TimedOut => ShutdownStep::Kill,
        }),
        step == shutdown_step(event, timeout),
{
    match event {
        ShutdownEvent::Begin { pid: Some(pid) } => {
            if pid <= 0x7fff_ffff {
                ShutdownStep::Ask { group: -(pid as i32) }
            } else {
                ShutdownStep::Wait { seconds: timeout }
            }
        },
        ShutdownEvent::Begin { pid: None } => ShutdownStep::Wait { seconds: timeout },
        ShutdownEvent::Asked => ShutdownStep::Wait { seconds: timeout },
        ShutdownEvent::Ended => ShutdownStep::Done,
        ShutdownEvent::TimedOut => ShutdownStep::Kill,
    }
}

/// The proxy is shut down: all servers are forgotten, and their processes are handed out
/// to be ended in the given time.
pub open spec fn is_shut_down(
    before: &ProxyServer,
    timeout: u64,
    processes: Seq<Seq<char>>,
    after: &ProxyServer,
) -> bool {
    &&& timeout == http_or_default(before.config()).shutdown_timeout
    &&& processes == before.processes()
    &&& after.connected() == Seq::<ConnectedServerView>::empty()
    &&& after.processes() == Seq::<Seq<char>>::empty()
    &&& after.config() == before.config()
    &&& after.middleware() == before.middleware()
}

impl ProxyServer {
    /// Forgets all servers and hands out their processes, to be ended.
    pub fn shutdown(&mut self) -> (plan: ShutdownPlan)
        ensures
            plan.timeout == http_or_default(old(self).config()).shutdown_timeout,
            texts(plan.processes@) == old(self).processes(),
            is_shut_down(&*old(self), plan.timeout, texts(plan.processes@), &*final(self)),
            final(self).connected() == Seq::<ConnectedServerView>::empty(),
            final(self).processes() == Seq::<Seq<char>>::empty(),
            final(self).config() == old(self).config(),
            final(self).middleware() == old(self).middleware(),
    {
        let timeout: u64 = match &self.config.http_server {
            Some(http) => http.shutdown_timeout,
            None => 5,
        };
        let no_servers: Vec<ConnectedServer> = Vec::new();
        assert(servers_view(no_servers@) =~= Seq::<ConnectedServerView>::empty());
        self.servers = no_servers;
        let mut processes: Vec<String> = Vec::new();
        assert(texts(processes@) =~= Seq::<Seq<char>>::empty());
        std::mem::swap(&mut processes, &mut self.processes);
        ShutdownPlan { timeout, processes }
    }
}

/// What the proxy says of itself.
#[derive(Clone, Debug, PartialEq, Eq)]
pub struct ServerInfo {
    pub name: String,
    pub version: String,
    pub instructions: String,
    /// It tells when its tools have changed.
    pub tools_list_changed: bool,
    /// It tells when its prompts have changed.
    pub prompts_list_changed: bool,
    /// It tells when its resources have changed.
    pub resources_list_changed: bool,
}

/// What the proxy of the given version says of itself.
pub fn get_info(version: &str) -> (info: ServerInfo)
    ensures
        info.name@ == "mcproxy"@,
        info.version@ == version@,
        info.instructions@ == "MCP Proxy Server aggregates tools from multiple MCP servers"@,
        info.tools_list_changed,
        info.prompts_list_changed,
        info.resources_list_changed,
{
    ServerInfo {
        name: "mcproxy".to_string(),
        version: version.to_string(),
        instructions: "MCP Proxy Server aggregates tools from multiple MCP servers".to_string(),
        tools_list_changed: true,
        prompts_list_changed: true,
        resources_list_changed: true,
    }
}

/// How a server is reached follows from what is configured for it and from nothing else:
/// a process by its command, its arguments and its environment, and any other by its URL,
/// with its token unless that is empty.
pub proof fn law_servers_are_reached(config: ServerConfig)
    ensures
        match config {
            ServerConfig::Stdio { command, args, env, .. } => transport_of(config) matches
                TransportView::Stdio(stdio) && stdio.command == command@ && stdio.args == texts(
                args@,
            ) && stdio.env == env@,
            ServerConfig::Http { url, authorization_token, .. } => transport_of(config) matches
                TransportView::Http { url: reached, token } && reached == url@ && (token is Some
                <==> authorization_token@.len() > 0) && (token is Some ==> token
                == Some(authorization_token@)),
        },
{
}

/// The process of a server that was started is among those that run, and so it stays
/// while the server answers. Where the server is given up it is not any more, and it is
/// ended where it ran. The processes of other servers stay, whatever happens.
pub proof fn law_processes_are_followed(
    before: Seq<Seq<char>>,
    name: Seq<char>,
    event: StdioEvent,
    action: StdioAction,
    after: Seq<Seq<char>>,
    other: Seq<char>,
)
    requires
        is_handled(before, name, event, action, after),
    ensures
        other != name ==> (after.contains(other) <==> before.contains(other)),
        event is Spawned ==> action is Serve && after.contains(name),
        event is Served ==> action is Connected && after == before,
        event matches StdioEvent::NotSpawned { reason } ==> after == before && (action matches
            StdioAction::GiveUp { kill, error } && !kill && (error@ matches
            ProxyErrorView::ProcessSpawn(text) && reason@.is_suffix_of(text))),
        event matches StdioEvent::NotServed { reason } ==> !after.contains(name) && (action matches
            StdioAction::GiveUp { kill, error } && kill == before.contains(name) && (error@ matches
            ProxyErrorView::Connection { server, reason: text } && server == name
            && reason@.is_suffix_of(text))),
{
    law_other_processes_stay(before, name, other);
    law_other_processes_stay(before, name, name);
    match event {
        StdioEvent::Spawned => {
            let rest = without_process(before, name);
            if rest.contains(other) {
                let i = choose|i: int| 0 <= i < rest.len() && rest[i] == other;
                assert(after[i] == other);
            }
            if after.contains(other) && other != name {
                let i = choose|i: int| 0 <= i < after.len() && after[i] == other;
                assert(rest[i] == other);
            }
        },
        StdioEvent::NotSpawned { reason } => {
            let text = "Failed to spawn child process: "@ + reason@;
            assert(text.skip(text.len() - reason@.len()) =~= reason@);
        },
        StdioEvent::NotServed { reason } => {
            let text = "Failed to serve client: "@ + reason@;
            assert(text.skip(text.len() - reason@.len()) =~= reason@);
        },
        StdioEvent::Served => {},
    }
}

/// The proxy goes on where one server is connected, whatever became of the others, and
/// where no server is configured; where all that are configured failed it does not.
pub proof fn law_one_server_is_enough(results: Seq<ConnectResult>, none_configured: bool, i: int)
    ensures
        0 <= i < results.len() && results[i] is Ok ==> can_go_on(results, none_configured),
        can_go_on(results, true),
        (forall|j: int| 0 <= j < results.len() ==> (#[trigger] results[j]) is Err) ==> !can_go_on(
            results,
            false,
        ),
    decreases results.len(),
{
    if results.len() > 0 {
        let start = results.drop_last();
        law_one_server_is_enough(start, none_configured, i);
        assert(results[results.len() - 1] == results.last());
        if i < start.len() && 0 <= i {
            assert(start[i] == results[i]);
        }
        law_one_server_is_enough(start, false, i);
        if forall|j: int| 0 <= j < results.len() ==> (#[trigger] results[j]) is Err {
            assert forall|j: int| 0 <= j < start.len() implies (#[trigger] start[j]) is Err by {
                assert(start[j] == results[j]);
            }
        }
    }
}

/// Asking again gives the new items where it gave some, and leaves the old ones where it
/// did not.
pub proof fn law_items_are_remembered<T>(before: Vec<T>, answer: Result<Vec<T>, String>)
    ensures
        answer matches Ok(items) ==> items_after(before, answer) == items,
        answer is Err ==> items_after(before, answer) == before,
{
}

/// The error of a server is passed on as it is. Where there was no answer, the error is
/// one of the proxy that tells the server and why.
pub proof fn law_call_errors_are_passed_on<E>(
    server_name: Seq<char>,
    failure: CallFailure<E>,
    error: Result<E, RpcError>,
)
    requires
        is_passed_on(server_name, failure, error),
    ensures
        failure matches CallFailure::Answered(answer) ==> error == Ok::<E, RpcError>(answer),
        failure matches CallFailure::NotAnswered(reason) ==> (error matches Err(told) && told.kind
            == RpcErrorKind::InternalError && occurs_in(told.message@, server_name)
            && reason@.is_suffix_of(told.message@)),
{
    if let CallFailure::NotAnswered(reason) = failure {
        let start = "Failed to call tool on server "@;
        let text = start + server_name + ": "@ + reason@;
        lemma_part_occurs(start, server_name, ": "@ + reason@);
        assert(start + server_name + (": "@ + reason@) =~= text);
        assert(text.skip(text.len() - reason@.len()) =~= reason@);
    }
}

/// At shutdown each process that runs is handed out to be ended, and no other, with the
/// time that is configured, or five seconds where none is. After it nothing runs, no
/// server is connected, and no call goes to one.
pub proof fn law_shutdown_ends_everything(
    before: ProxyServer,
    timeout: u64,
    processes: Seq<Seq<char>>,
    after: ProxyServer,
    tool_name: Seq<char>,
)
    requires
        is_shut_down(&before, timeout, processes, &after),
    ensures
        forall|name: Seq<char>| #[trigger]
            processes.contains(name) <==> before.processes().contains(name),
        before.config().http_server matches Some(http) ==> timeout == http.shutdown_timeout,
        before.config().http_server is None ==> timeout == 5,
        after.processes().len() == 0,
        after.connected().len() == 0,
        !(routed(after.connected(), tool_name) matches Ok(CallRouteView::Server { .. })),
        after.middleware() == before.middleware(),
{
    if let Ok(CallRouteView::Server { .. }) = routed(after.connected(), tool_name) {
        law_call_reaches_connected_servers_only(after.connected(), tool_name);
    }
}

/// A call of the search tool can be answered where there is no query, where there is no
/// tool search, and where the first tool search can make the search.
pub proof fn law_search_calls_can_be_answered(
    proxy: ProxyServer,
    arguments: Option<JsonView>,
    at: int,
)
    ensures
        query_of(arguments) is None ==> proxy.searchable(arguments),
        !has_search(proxy.middleware()) ==> proxy.searchable(arguments),
        is_first_search(proxy.middleware(), at) && query_of(arguments) is Some && (
        proxy.middleware()[at]->ToolSearch_0).searchable(query_of(arguments)->0)
            ==> proxy.searchable(arguments),
{
    if is_first_search(proxy.middleware(), at) {
        assert forall|other: int| #[trigger]
            is_first_search(proxy.middleware(), other) implies other == at by {
            if other < at {
                assert(proxy.middleware()[other] is DescriptionEnricher);
            } else if at < other {
                assert(proxy.middleware()[at] is DescriptionEnricher);
            }
        }
    }
}

/// Each connected server of a plain name is reached by the names of its tools, whatever
/// it offered when it was connected to and wherever it stands among the servers.
pub proof fn law_every_connected_server_is_reached(
    servers: Seq<ConnectedServerView>,
    i: int,
    tool: Seq<char>,
)
    requires
        0 <= i < servers.len(),
        is_plain(servers[i].name),
    ensures
        routed(servers, prefixed(servers[i].name, tool)) == Ok::<CallRouteView, ProxyErrorView>(
            CallRouteView::Server { server: servers[i].name, tool },
        ),
{
    assert(has_server(servers, servers[i].name));
    law_listed_tool_reaches_its_server(servers, servers[i].name, tool);
}

/// The tool search that is asked is the first one there is, and there is one where some
/// middleware is one.
pub proof fn law_first_search_is_asked(middleware: Seq<ProxyMiddleware>, at: int, i: int)
    ensures
        is_first_search(middleware, at) && 0 <= i < at ==> !(middleware[i] is ToolSearch),
        is_first_search(middleware, at) ==> 0 <= at < middleware.len() && middleware[at]
            is ToolSearch,
        0 <= i < middleware.len() && middleware[i] is ToolSearch ==> has_search(middleware),
        has_search(middleware) ==> exists|j: int|
            0 <= j < middleware.len() && (#[trigger] middleware[j]) is ToolSearch,
    decreases i,
{
    if 0 <= i < middleware.len() && middleware[i] is ToolSearch {
        if exists|j: int| 0 <= j < i && (#[trigger] middleware[j]) is ToolSearch {
            let j = choose|j: int| 0 <= j < i && (#[trigger] middleware[j]) is ToolSearch;
            law_first_search_is_asked(middleware, at, j);
        } else {
            assert(is_first_search(middleware, i));
        }
    }
    if has_search(middleware) {
        let first = choose|first: int| is_first_search(middleware, first);
        assert(middleware[first] is ToolSearch);
    }
}

/// Without middleware a client is shown the tools of all answers. With one more enricher
/// behind the others it is shown the same tools, each with the description that this
/// enricher gives it.
pub proof fn law_shown_tools(
    middleware: Seq<ProxyMiddleware>,
    enricher: DescriptionEnricherMiddleware,
    answers: Seq<Answer<Tool>>,
    before: Seq<ToolView>,
    after: Seq<ToolView>,
    i: int,
)
    requires
        are_listed_tools(middleware, answers, before),
        are_listed_tools(
            middleware.push(ProxyMiddleware::DescriptionEnricher(enricher)),
            answers,
            after,
        ),
    ensures
        middleware.len() == 0 ==> before == answered_tools(answers),
        after.len() == before.len(),
        0 <= i < before.len() ==> {
            &&& is_described(
                enricher.suffix(),
                enricher.overrides(),
                before[i].name,
                before[i].description,
                after[i].description,
            )
            &&& after[i] == (ToolView { description: after[i].description, ..before[i] })
        },
{
    let last = ProxyMiddleware::DescriptionEnricher(enricher);
    assert(middleware.push(last).drop_last() =~= middleware);
    law_enriched_tools(last, before, i);
}

/// Without middleware a client is shown the prompts of all answers. With one more enricher
/// behind the others it is shown the same prompts, each with the description that this
/// enricher gives it.
pub proof fn law_shown_prompts(
    middleware: Seq<ProxyMiddleware>,
    enricher: DescriptionEnricherMiddleware,
    answers: Seq<Answer<Prompt>>,
    before: Seq<PromptView>,
    after: Seq<PromptView>,
    i: int,
)
    requires
        are_listed_prompts(middleware, answers, before),
        are_listed_prompts(
            middleware.push(ProxyMiddleware::DescriptionEnricher(enricher)),
            answers,
            after,
        ),
    ensures
        middleware.len() == 0 ==> before == answered_prompts(answers),
        after.len() == before.len(),
        0 <= i < before.len() ==> {
            &&& is_described(
                enricher.suffix(),
                enricher.overrides(),
                before[i].name,
                before[i].description,
                after[i].description,
            )
            &&& after[i] == (PromptView { description: after[i].description, ..before[i] })
        },
{
    let last = ProxyMiddleware::DescriptionEnricher(enricher);
    assert(middleware.push(last).drop_last() =~= middleware);
    law_enriched_prompts(last, before, i);
}

/// Without middleware a client is shown the resources of all answers. With one more enricher
/// behind the others it is shown the same resources, each with the description that this
/// enricher gives it.
pub proof fn law_shown_resources(
    middleware: Seq<ProxyMiddleware>,
    enricher: DescriptionEnricherMiddleware,
    answers: Seq<Answer<Resource>>,
    before: Seq<ResourceView>,
    after: Seq<ResourceView>,
    i: int,
)
    requires
        are_listed_resources(middleware, answers, before),
        are_listed_resources(
            middleware.push(ProxyMiddleware::DescriptionEnricher(enricher)),
            answers,
            after,
        ),
    ensures
        middleware.len() == 0 ==> before == answered_resources(answers),
        after.len() == before.len(),
        0 <= i < before.len() ==> {
            &&& is_described(
                enricher.suffix(),
                enricher.overrides(),
                before[i].uri,
                before[i].description,
                after[i].description,
            )
            &&& after[i] == (ResourceView { description: after[i].description, ..before[i] })
        },
{
    let last = ProxyMiddleware::DescriptionEnricher(enricher);
    assert(middleware.push(last).drop_last() =~= middleware);
    law_enriched_resources(last, before, i);
}

} // verus!
