//! The configuration of the proxy.

use std::collections::HashMap;
use vstd::prelude::*;

use crate::error::{ProxyError, ProxyErrorView};
use crate::json::{JsonValue, JsonView};
use crate::text::{
    decimal, joined, law_decimal_is_read_back, law_numbers_are_digits, lemma_number_of_bound,
    listed_parts, occurs_at, occurs_in, parse_number, parsed_number, same_but_case, same_text_but_case, small_code,
    split_list, texts,
};

verus! {

/// The configuration: the servers behind the proxy, by name, and the HTTP
/// server that the proxy itself is.
#[derive(Clone, Debug)]
pub struct McpConfig {
    pub mcp_servers: HashMap<String, ServerConfig>,
    pub http_server: Option<HttpServerConfig>,
}

/// The middleware of the proxy.
#[derive(Clone, Debug)]
pub struct MiddlewareConfig {
    /// Middleware that works on what all servers offer together.
    pub proxy: Vec<MiddlewareSpec>,
    /// Middleware that works on one server.
    pub client: ClientMiddlewareConfig,
}

/// The middleware of the single servers.
#[derive(Clone, Debug)]
pub struct ClientMiddlewareConfig {
    /// What every server has.
    pub default: Vec<MiddlewareSpec>,
    /// What a server of the given name has instead.
    pub servers: HashMap<String, Vec<MiddlewareSpec>>,
}

/// One piece of middleware.
#[derive(Clone, Debug)]
pub struct MiddlewareSpec {
    /// What kind of middleware it is.
    pub middleware_type: String,
    /// Whether it is used.
    pub enabled: bool,
    /// Its own configuration.
    pub config: JsonValue,
}

/// A server behind the proxy.
#[derive(Clone, Debug)]
pub enum ServerConfig {
    /// A process that is spoken to over its standard input and output.
    Stdio {
        server_type: Option<String>,
        command: String,
        args: Vec<String>,
        env: HashMap<String, String>,
    },
    /// A server that is spoken to over HTTP.
    Http { server_type: Option<String>, url: String, authorization_token: String },
}

/// The HTTP server that the proxy is.
#[derive(Clone, Debug)]
pub struct HttpServerConfig {
    /// The host to bind to.
    pub host: String,
    /// The port to bind to.
    pub port: u16,
    /// Whether requests from pages of other origins are answered.
    pub cors_enabled: bool,
    /// The origins that are allowed; `*` allows all.
    pub cors_origins: Vec<String>,
    /// How many seconds a process has to end at shutdown.
    pub shutdown_timeout: u64,
    /// The Unix socket to listen on, in place of host and port.
    pub unix_socket: Option<String>,
    /// The file mode of the Unix socket, in octal digits.
    pub unix_socket_mode: Option<String>,
    /// The middleware.
    pub middleware: MiddlewareConfig,
}

/// What a process to speak to is started with.
#[derive(Clone, Debug)]
pub struct StdioTransportConfig {
    pub command: String,
    pub args: Vec<String>,
    pub env: HashMap<String, String>,
}

/// Where a server is reached over HTTP.
#[derive(Clone, Debug)]
pub struct HttpTransportConfig {
    pub url: String,
    pub authorization_token: String,
}

/// The short name of [`StdioTransportConfig`].
pub type StdioConfig = StdioTransportConfig;

/// The short name of [`HttpTransportConfig`].
pub type HttpConfig = HttpTransportConfig;

/// One piece of middleware, with its texts as characters.
pub struct MiddlewareSpecView {
    pub middleware_type: Seq<char>,
    pub enabled: bool,
    pub config: JsonView,
}

/// The middleware of the proxy, with its texts as characters.
#[verifier::ext_equal]
pub struct MiddlewareView {
    pub proxy: Seq<MiddlewareSpecView>,
    pub client_default: Seq<MiddlewareSpecView>,
    pub client_servers: Map<String, Vec<MiddlewareSpec>>,
}

/// The HTTP server, with its texts as characters.
#[verifier::ext_equal]
pub struct HttpServerView {
    pub host: Seq<char>,
    pub port: u16,
    pub cors_enabled: bool,
    pub cors_origins: Seq<Seq<char>>,
    pub shutdown_timeout: u64,
    pub unix_socket: Option<Seq<char>>,
    pub unix_socket_mode: Option<Seq<char>>,
    pub middleware: MiddlewareView,
}

/// The characters of a text that may be missing.
pub open spec fn text_or_none(text: Option<String>) -> Option<Seq<char>> {
    match text {
        Some(text) => Some(text@),
        None => None,
    }
}

impl View for MiddlewareSpec {
    type V = MiddlewareSpecView;

    open spec fn view(&self) -> MiddlewareSpecView {
        MiddlewareSpecView {
            middleware_type: self.middleware_type@,
            enabled: self.enabled,
            config: self.config.view(),
        }
    }
}

impl View for MiddlewareConfig {
    type V = MiddlewareView;

    open spec fn view(&self) -> MiddlewareView {
        MiddlewareView {
            proxy: self.proxy@.map_values(|spec: MiddlewareSpec| spec@),
            client_default: self.client.default@.map_values(|spec: MiddlewareSpec| spec@),
            client_servers: self.client.servers@,
        }
    }
}

impl View for HttpServerConfig {
    type V = HttpServerView;

    open spec fn view(&self) -> HttpServerView {
        HttpServerView {
            host: self.host@,
            port: self.port,
            cors_enabled: self.cors_enabled,
            cors_origins: texts(self.cors_origins@),
            shutdown_timeout: self.shutdown_timeout,
            unix_socket: text_or_none(self.unix_socket),
            unix_socket_mode: text_or_none(self.unix_socket_mode),
            middleware: self.middleware@,
        }
    }
}

/// The HTTP server that is used where none is configured.
pub open spec fn default_http_server() -> HttpServerView {
    HttpServerView {
        host: "localhost"@,
        port: 8080,
        cors_enabled: true,
        cors_origins: seq!["*"@],
        shutdown_timeout: 5,
        unix_socket: None,
        unix_socket_mode: None,
        middleware: no_middleware(),
    }
}

/// No middleware at all.
pub open spec fn no_middleware() -> MiddlewareView {
    MiddlewareView {
        proxy: Seq::empty(),
        client_default: Seq::empty(),
        client_servers: Map::empty(),
    }
}

/// Middleware is used where nothing else is said.
pub fn default_enabled() -> (enabled: bool)
    ensures
        enabled,
{
    true
}

/// The host that is bound to where none is given.
pub fn default_host() -> (host: String)
    ensures
        host@ == "localhost"@,
{
    "localhost".to_string()
}

/// The port that is bound to where none is given.
pub fn default_port() -> (port: u16)
    ensures
        port == 8080,
{
    8080
}

/// Requests from pages of other origins are answered where nothing else is said.
pub fn default_cors_enabled() -> (enabled: bool)
    ensures
        enabled,
{
    true
}

/// The origins that are allowed where none are given: all.
pub fn default_cors_origins() -> (origins: Vec<String>)
    ensures
        texts(origins@) == seq!["*"@],
{
    let origins: Vec<String> = vec!["*".to_string()];
    assert(texts(origins@) =~= seq!["*"@]);
    origins
}

/// The seconds that a process has to end where nothing else is said.
pub fn default_shutdown_timeout() -> (seconds: u64)
    ensures
        seconds == 5,
{
    5
}

impl Default for ClientMiddlewareConfig {
    fn default() -> (config: Self)
        ensures
            config.default@.len() == 0,
            config.servers@ == Map::<String, Vec<MiddlewareSpec>>::empty(),
    {
        ClientMiddlewareConfig { default: Vec::new(), servers: HashMap::new() }
    }
}

impl Default for MiddlewareConfig {
    fn default() -> (config: Self)
        ensures
            config@ == no_middleware(),
    {
        let config = MiddlewareConfig {
            proxy: Vec::new(),
            client: ClientMiddlewareConfig::default(),
        };
        assert(config@ =~= no_middleware());
        config
    }
}

impl Default for HttpServerConfig {
    fn default() -> (config: Self)
        ensures
            config@ == default_http_server(),
    {
        HttpServerConfig {
            host: default_host(),
            port: default_port(),
            cors_enabled: default_cors_enabled(),
            cors_origins: default_cors_origins(),
            shutdown_timeout: default_shutdown_timeout(),
            unix_socket: None,
            unix_socket_mode: None,
            middleware: MiddlewareConfig::default(),
        }
    }
}

impl Default for McpConfig {
    fn default() -> (config: Self)
        ensures
            config.mcp_servers@ == Map::<String, ServerConfig>::empty(),
            config.http_server matches Some(http) && http@ == default_http_server(),
    {
        McpConfig { mcp_servers: HashMap::new(), http_server: Some(HttpServerConfig::default()) }
    }
}

/// What a process is started with, with its texts as characters.
#[verifier::ext_equal]
pub struct StdioView {
    pub command: Seq<char>,
    pub args: Seq<Seq<char>>,
    pub env: Map<String, String>,
}

/// Where a server is reached over HTTP, with its texts as characters.
pub struct HttpView {
    pub url: Seq<char>,
    pub authorization_token: Seq<char>,
}

impl View for StdioTransportConfig {
    type V = StdioView;

    open spec fn view(&self) -> StdioView {
        StdioView { command: self.command@, args: texts(self.args@), env: self.env@ }
    }
}

impl View for HttpTransportConfig {
    type V = HttpView;

    open spec fn view(&self) -> HttpView {
        HttpView { url: self.url@, authorization_token: self.authorization_token@ }
    }
}

impl ServerConfig {
    /// What the process of the server is started with.
    pub open spec fn stdio(self) -> Option<StdioView> {
        match self {
            ServerConfig::Stdio { command, args, env, .. } => Some(
                StdioView { command: command@, args: texts(args@), env: env@ },
            ),
            ServerConfig::Http { .. } => None,
        }
    }

    /// Where the server is reached over HTTP.
    pub open spec fn http(self) -> Option<HttpView> {
        match self {
            ServerConfig::Http { url, authorization_token, .. } => Some(
                HttpView { url: url@, authorization_token: authorization_token@ },
            ),
            ServerConfig::Stdio { .. } => None,
        }
    }

    /// What to start the process with, where the server is a process.
    pub fn as_stdio(&self) -> (res: Option<StdioTransportConfig>)
        ensures
            match (res, self.stdio()) {
                (Some(config), Some(expected)) => config@ == expected,
                (None, None) => true,
                _ => false,
            },
    {
        match self {
            ServerConfig::Stdio { command, args, env, .. } => {
                let config = StdioTransportConfig {
                    command: command.clone(),
                    args: args.clone(),
                    env: env.clone(),
                };
                assert(texts(config.args@) =~= texts(args@));
                Some(config)
            },
            _ => None,
        }
    }

    /// Where to reach the server, where it is reached over HTTP.
    pub fn as_http(&self) -> (res: Option<HttpTransportConfig>)
        ensures
            match (res, self.http()) {
                (Some(config), Some(expected)) => config@ == expected,
                (None, None) => true,
                _ => false,
            },
    {
        match self {
            ServerConfig::Http { url, authorization_token, .. } => Some(
                HttpTransportConfig {
                    url: url.clone(),
                    authorization_token: authorization_token.clone(),
                },
            ),
            _ => None,
        }
    }
}

/// A server is a process or is reached over HTTP, never both and never neither.
pub proof fn law_one_transport(config: ServerConfig)
    ensures
        config.stdio() is Some <==> config.http() is None,
{
}

/// Why a configuration file could not be loaded.
#[derive(Clone, Debug, PartialEq, Eq)]
pub enum LoadFailure {
    /// The file could not be read, and why.
    Unreadable(String),
    /// What the file holds is not a configuration, and why.
    Malformed(String),
}

/// Loading a configuration file gives the result, from what reading it gave.
pub open spec fn is_loaded(
    path: Seq<char>,
    read: Result<McpConfig, LoadFailure>,
    res: Result<McpConfig, ProxyError>,
) -> bool {
    match (read, res) {
        (Ok(config), Ok(loaded)) => {
            &&& loaded.mcp_servers@ == config.mcp_servers@
            &&& loaded.http_server matches Some(http) && http@ == http_or_default(config)
        },
        (Err(LoadFailure::Unreadable(reason)), Err(error)) => error@ == ProxyErrorView::Config(
            "Failed to read config file '"@ + path + "': "@ + reason@,
        ),
        (Err(LoadFailure::Malformed(reason)), Err(error)) => error@ == ProxyErrorView::Json(
            reason@,
        ),
        _ => false,
    }
}

/// What loading a configuration file gives, from what reading it gave: an HTTP
/// server that is missing is the default one.
pub fn load_config(path: &str, read: Result<McpConfig, LoadFailure>) -> (res: Result<
    McpConfig,
    ProxyError,
>)
    ensures
        match (read, res) {
            (Ok(config), Ok(loaded)) => {
                &&& loaded.mcp_servers@ == config.mcp_servers@
                &&& loaded.http_server matches Some(http) && http@ == http_or_default(config)
            },
            (Err(LoadFailure::Unreadable(reason)), Err(error)) => error@ == ProxyErrorView::Config(
                "Failed to read config file '"@ + path@ + "': "@ + reason@,
            ),
            (Err(LoadFailure::Malformed(reason)), Err(error)) => error@ == ProxyErrorView::Json(
                reason@,
            ),
            _ => false,
        },
        is_loaded(path@, read, res),
{
    match read {
        Ok(config) => Ok(
            McpConfig {
                mcp_servers: config.mcp_servers,
                http_server: match config.http_server {
                    Some(http) => Some(http),
                    None => Some(HttpServerConfig::default()),
                },
            },
        ),
        Err(LoadFailure::Unreadable(reason)) => {
            let text: String = joined("Failed to read config file '", path).concat("': ").concat(
                reason.as_str(),
            );
            Err(ProxyError::config(text.as_str()))
        },
        Err(LoadFailure::Malformed(reason)) => Err(ProxyError::Json(reason)),
    }
}

/// The HTTP server of a configuration, the default one where it has none.
pub open spec fn http_or_default(config: McpConfig) -> HttpServerView {
    match config.http_server {
        Some(http) => http@,
        None => default_http_server(),
    }
}

/// The settings that the environment gives, each as it is written there.
#[derive(Clone, Debug)]
pub struct EnvOverrides {
    /// `MCPROXY_HTTP_HOST`
    pub host: Option<String>,
    /// `MCPROXY_HTTP_PORT`
    pub port: Option<String>,
    /// `MCPROXY_CORS_ENABLED`
    pub cors_enabled: Option<String>,
    /// `MCPROXY_CORS_ORIGINS`
    pub cors_origins: Option<String>,
    /// `MCPROXY_SHUTDOWN_TIMEOUT`
    pub shutdown_timeout: Option<String>,
    /// `MCPROXY_UNIX_SOCKET`
    pub unix_socket: Option<String>,
    /// `MCPROXY_UNIX_SOCKET_MODE`
    pub unix_socket_mode: Option<String>,
}

impl Default for EnvOverrides {
    fn default() -> (overrides: Self)
        ensures
            overrides.host is None,
            overrides.port is None,
            overrides.cors_enabled is None,
            overrides.cors_origins is None,
            overrides.shutdown_timeout is None,
            overrides.unix_socket is None,
            overrides.unix_socket_mode is None,
    {
        EnvOverrides {
            host: None,
            port: None,
            cors_enabled: None,
            cors_origins: None,
            shutdown_timeout: None,
            unix_socket: None,
            unix_socket_mode: None,
        }
    }
}

/// A word that switches something on, in whatever case.
pub open spec fn says_yes(text: Seq<char>) -> bool {
    ||| same_but_case(text, "true"@)
    ||| same_but_case(text, "1"@)
    ||| same_but_case(text, "yes"@)
    ||| same_but_case(text, "on"@)
}

/// A word that switches something off, in whatever case.
pub open spec fn says_no(text: Seq<char>) -> bool {
    ||| same_but_case(text, "false"@)
    ||| same_but_case(text, "0"@)
    ||| same_but_case(text, "no"@)
    ||| same_but_case(text, "off"@)
}

/// The number of at most `max` that a text stands for, or the one before it.
pub open spec fn number_or(text: Option<Seq<char>>, max: nat, before: nat) -> nat {
    match text {
        Some(text) => match parsed_number(text, 10, max) {
            Ok(number) => number,
            Err(_) => before,
        },
        None => before,
    }
}

/// The HTTP server with the settings of the environment in place of its own. A
/// setting that cannot be read changes nothing.
pub open spec fn overridden(http: HttpServerView, overrides: EnvOverrides) -> HttpServerView {
    HttpServerView {
        host: match overrides.host {
            Some(host) => host@,
            None => http.host,
        },
        port: number_or(text_or_none(overrides.port), u16::MAX as nat, http.port as nat) as u16,
        cors_enabled: match overrides.cors_enabled {
            Some(word) => says_yes(word@) || (http.cors_enabled && !says_no(word@)),
            None => http.cors_enabled,
        },
        cors_origins: match overrides.cors_origins {
            Some(list) if listed_parts(list@, ',').len() > 0 => listed_parts(list@, ','),
            _ => http.cors_origins,
        },
        shutdown_timeout: number_or(
            text_or_none(overrides.shutdown_timeout),
            u64::MAX as nat,
            http.shutdown_timeout as nat,
        ) as u64,
        unix_socket: match overrides.unix_socket {
            Some(path) => Some(path@),
            None => http.unix_socket,
        },
        unix_socket_mode: match overrides.unix_socket_mode {
            Some(mode) => Some(mode@),
            None => http.unix_socket_mode,
        },
        middleware: http.middleware,
    }
}

/// What a word says: on, off or nothing.
fn switch_word(word: &str) -> (says: Option<bool>)
    ensures
        says == (if says_yes(word@) {
            Some(true)
        } else if says_no(word@) {
            Some(false)
        } else {
            None
        }),
{
    if same_text_but_case(word, "true") || same_text_but_case(word, "1") || same_text_but_case(
        word,
        "yes",
    ) || same_text_but_case(word, "on") {
        Some(true)
    } else if same_text_but_case(word, "false") || same_text_but_case(word, "0")
        || same_text_but_case(word, "no") || same_text_but_case(word, "off") {
        Some(false)
    } else {
        None
    }
}

/// Puts the settings of the environment in place of those of the HTTP server. A
/// setting that cannot be read changes nothing, and an HTTP server that is
/// missing is the default one.
pub fn apply_env_overrides(config: &mut McpConfig, overrides: &EnvOverrides)
    ensures
        final(config).mcp_servers == old(config).mcp_servers,
        final(config).http_server matches Some(http) && http@ == overridden(
            http_or_default(*old(config)),
            *overrides,
        ),
{
    let mut http_config: HttpServerConfig = match config.http_server.take() {
        Some(http) => http,
        None => HttpServerConfig::default(),
    };
    if let Some(host) = &overrides.host {
        http_config.host = host.clone();
    }
    if let Some(text) = &overrides.port {
        if let Ok(port) = parse_number(text.as_str(), 10, 65535) {
            http_config.port = port as u16;
        }
    }
    if let Some(word) = &overrides.cors_enabled {
        if let Some(enabled) = switch_word(word.as_str()) {
            http_config.cors_enabled = enabled;
        }
    }
    if let Some(list) = &overrides.cors_origins {
        let origins: Vec<String> = split_list(list.as_str(), ',');
        if origins.len() > 0 {
            http_config.cors_origins = origins;
        }
    }
    if let Some(text) = &overrides.shutdown_timeout {
        if let Ok(timeout) = parse_number(text.as_str(), 10, u64::MAX) {
            http_config.shutdown_timeout = timeout;
        }
    }
    if let Some(path) = &overrides.unix_socket {
        http_config.unix_socket = Some(path.clone());
    }
    if let Some(mode) = &overrides.unix_socket_mode {
        http_config.unix_socket_mode = Some(mode.clone());
    }
    config.http_server = Some(http_config);
}

/// Where the environment gives no setting, the HTTP server stays as it is.
pub proof fn law_no_overrides(http: HttpServerView, overrides: EnvOverrides)
    requires
        overrides.host is None,
        overrides.port is None,
        overrides.cors_enabled is None,
        overrides.cors_origins is None,
        overrides.shutdown_timeout is None,
        overrides.unix_socket is None,
        overrides.unix_socket_mode is None,
    ensures
        overridden(http, overrides) == http,
{
}

/// To put the settings of the environment in place a second time changes
/// nothing more.
pub proof fn law_overrides_twice(http: HttpServerView, overrides: EnvOverrides)
    ensures
        overridden(overridden(http, overrides), overrides) == overridden(http, overrides),
{
    lemma_number_bound(text_or_none(overrides.port), u16::MAX as nat, http.port as nat);
    lemma_number_bound(
        text_or_none(overrides.shutdown_timeout),
        u64::MAX as nat,
        http.shutdown_timeout as nat,
    );
}

/// A number that is read is not over the largest one asked for.
proof fn lemma_number_bound(text: Option<Seq<char>>, max: nat, before: nat)
    requires
        before <= max,
    ensures
        number_or(text, max, before) <= max,
{
    if let Some(text) = text {
        lemma_number_of_bound(text, 10, max);
        lemma_number_of_bound(text.drop_first(), 10, max);
    }
}

/// A text that the environment gives takes the place of the one before, and one that
/// it does not give leaves it.
pub open spec fn is_replaced(
    given: Option<String>,
    before: Option<Seq<char>>,
    after: Option<Seq<char>>,
) -> bool {
    &&& given matches Some(text) ==> after == Some(text@)
    &&& given is None ==> after == before
}

/// Each text that the environment gives is the one that is used, whatever else it
/// gives.
pub proof fn law_given_texts_are_used(http: HttpServerView, overrides: EnvOverrides)
    ensures
        ({
            let after = overridden(http, overrides);
            &&& is_replaced(overrides.host, Some(http.host), Some(after.host))
            &&& is_replaced(overrides.unix_socket, http.unix_socket, after.unix_socket)
            &&& is_replaced(
                overrides.unix_socket_mode,
                http.unix_socket_mode,
                after.unix_socket_mode,
            )
            &&& after.middleware == http.middleware
        }),
{
}

/// Each number that the environment gives is the one that is used, where it is one
/// that there is room for; any other text, or none, leaves what was there.
pub proof fn law_given_numbers_are_used(http: HttpServerView, overrides: EnvOverrides)
    ensures
        ({
            let after = overridden(http, overrides);
            &&& overrides.port is None ==> after.port == http.port
            &&& overrides.port matches Some(text) ==> match parsed_number(
                text@,
                10,
                u16::MAX as nat,
            ) {
                Ok(number) => after.port == number,
                Err(_) => after.port == http.port,
            }
            &&& overrides.shutdown_timeout is None ==> after.shutdown_timeout
                == http.shutdown_timeout
            &&& overrides.shutdown_timeout matches Some(text) ==> match parsed_number(
                text@,
                10,
                u64::MAX as nat,
            ) {
                Ok(number) => after.shutdown_timeout == number,
                Err(_) => after.shutdown_timeout == http.shutdown_timeout,
            }
        }),
{
    if let Some(text) = overrides.port {
        law_numbers_are_digits(text@, 10, u16::MAX as nat);
    }
    if let Some(text) = overrides.shutdown_timeout {
        law_numbers_are_digits(text@, 10, u64::MAX as nat);
    }
}

/// A port in decimal digits is the one that is used, and so is a time.
pub proof fn law_decimal_settings_are_used(
    http: HttpServerView,
    overrides: EnvOverrides,
    port: u16,
    timeout: u64,
)
    ensures
        overrides.port matches Some(text) && text@ == decimal(port as nat) ==> overridden(
            http,
            overrides,
        ).port == port,
        overrides.shutdown_timeout matches Some(text) && text@ == decimal(timeout as nat)
            ==> overridden(http, overrides).shutdown_timeout == timeout,
{
    law_decimal_is_read_back(port as nat, u16::MAX as nat);
    law_decimal_is_read_back(timeout as nat, u64::MAX as nat);
}

/// The words that switch something on are not those that switch it off, and their case
/// does not matter.
pub proof fn law_switch_words(text: Seq<char>, other: Seq<char>)
    ensures
        !(says_yes(text) && says_no(text)),
        same_but_case(text, other) ==> says_yes(text) == says_yes(other) && says_no(text)
            == says_no(other),
        says_yes("true"@) && says_yes("1"@) && says_yes("yes"@) && says_yes("on"@),
        says_no("false"@) && says_no("0"@) && says_no("no"@) && says_no("off"@),
        says_yes(text) ==> exists|word: Seq<char>| #[trigger]
            same_but_case(text, word) && seq!["true"@, "1"@, "yes"@, "on"@].contains(word),
        says_no(text) ==> exists|word: Seq<char>| #[trigger]
            same_but_case(text, word) && seq!["false"@, "0"@, "no"@, "off"@].contains(word),
{
    reveal_strlit("true");
    reveal_strlit("1");
    reveal_strlit("yes");
    reveal_strlit("on");
    reveal_strlit("false");
    reveal_strlit("0");
    reveal_strlit("no");
    reveal_strlit("off");
    let yes = seq!["true"@, "1"@, "yes"@, "on"@];
    let no = seq!["false"@, "0"@, "no"@, "off"@];
    assert(yes.contains(yes[0]) && yes.contains(yes[1]) && yes.contains(yes[2]) && yes.contains(
        yes[3],
    ));
    assert(no.contains(no[0]) && no.contains(no[1]) && no.contains(no[2]) && no.contains(no[3]));
    if says_yes(text) && says_no(text) {
        assert(small_code(text[0]) == small_code(text[0]));
        if same_but_case(text, "1"@) {
            assert(small_code(text[0]) == small_code("1"@[0]));
            assert(small_code(text[0]) == small_code("0"@[0]));
        } else if same_but_case(text, "on"@) {
            assert(small_code(text[0]) == small_code("on"@[0]));
            assert(small_code(text[0]) == small_code("no"@[0]));
        } else if same_but_case(text, "yes"@) {
            assert(small_code(text[0]) == small_code("yes"@[0]));
            assert(small_code(text[0]) == small_code("off"@[0]));
        }
    }
    if same_but_case(text, other) {
        lemma_same_word(text, other, "true"@);
        lemma_same_word(text, other, "1"@);
        lemma_same_word(text, other, "yes"@);
        lemma_same_word(text, other, "on"@);
        lemma_same_word(text, other, "false"@);
        lemma_same_word(text, other, "0"@);
        lemma_same_word(text, other, "no"@);
        lemma_same_word(text, other, "off"@);
    }
}

/// Texts that are the same but for the case are the same words.
proof fn lemma_same_word(text: Seq<char>, other: Seq<char>, word: Seq<char>)
    requires
        same_but_case(text, other),
    ensures
        same_but_case(text, word) == same_but_case(other, word),
{
    if same_but_case(text, word) {
        assert forall|i: int| 0 <= i < other.len() implies #[trigger] small_code(other[i])
            == small_code(word[i]) by {
            assert(small_code(text[i]) == small_code(other[i]));
            assert(small_code(text[i]) == small_code(word[i]));
        }
    }
    if same_but_case(other, word) {
        assert forall|i: int| 0 <= i < text.len() implies #[trigger] small_code(text[i])
            == small_code(word[i]) by {
            assert(small_code(text[i]) == small_code(other[i]));
            assert(small_code(other[i]) == small_code(word[i]));
        }
    }
}

/// A word of the environment that says yes switches answers to other origins on, one
/// that says no switches them off, and any other leaves them.
pub proof fn law_given_switch_is_used(http: HttpServerView, overrides: EnvOverrides)
    ensures
        ({
            let after = overridden(http, overrides).cors_enabled;
            &&& overrides.cors_enabled is None ==> after == http.cors_enabled
            &&& overrides.cors_enabled matches Some(word) ==> {
                &&& says_yes(word@) ==> after
                &&& says_no(word@) ==> !after
                &&& !says_yes(word@) && !says_no(word@) ==> after == http.cors_enabled
            }
        }),
{
    if let Some(word) = overrides.cors_enabled {
        law_switch_words(word@, word@);
    }
}

/// The origins that the environment lists are the ones that are used, each of them
/// without the white space around it; a list of none leaves those that were there.
pub proof fn law_given_origins_are_used(http: HttpServerView, overrides: EnvOverrides)
    ensures
        ({
            let after = overridden(http, overrides).cors_origins;
            &&& overrides.cors_origins is None ==> after == http.cors_origins
            &&& overrides.cors_origins matches Some(list) ==> {
                &&& listed_parts(list@, ',').len() > 0 ==> after == listed_parts(list@, ',')
                &&& listed_parts(list@, ',').len() == 0 ==> after == http.cors_origins
            }
        }),
{
}

/// A server keeps what is configured for it, whatever it is: the command, the arguments
/// in their order and the environment of a process, or the URL and the token.
pub proof fn law_server_settings_are_kept(config: ServerConfig)
    ensures
        match config {
            ServerConfig::Stdio { command, args, env, .. } => config.stdio() matches Some(stdio) && {
                &&& stdio.command == command@
                &&& stdio.args.len() == args@.len()
                &&& forall|i: int| 0 <= i < args@.len() ==> #[trigger] stdio.args[i] == args@[i]@
                &&& stdio.env == env@
            },
            ServerConfig::Http { url, authorization_token, .. } => config.http() matches Some(http)
                && http.url == url@ && http.authorization_token == authorization_token@,
        },
{
}

/// The HTTP server that is configured is the one that is used; where none is, it is one
/// on port 8080 of the local host that any page may use, whose processes have five
/// seconds to end, and which has neither a Unix socket nor middleware.
pub proof fn law_configured_server_is_used(config: McpConfig)
    ensures
        config.http_server matches Some(http) ==> http_or_default(config) == http@,
        config.http_server is None ==> {
            let http = http_or_default(config);
            &&& http.host == "localhost"@
            &&& http.port == 8080
            &&& http.cors_enabled
            &&& http.cors_origins == seq!["*"@]
            &&& http.shutdown_timeout == 5
            &&& http.unix_socket is None
            &&& http.unix_socket_mode is None
            &&& http.middleware.proxy.len() == 0
        },
{
}

/// A configuration that could be read is used with all its servers and its HTTP server.
/// Where it could not be read the error tells the path and why, and where it is none, why.
pub proof fn law_configurations_are_loaded(
    path: Seq<char>,
    read: Result<McpConfig, LoadFailure>,
    res: Result<McpConfig, ProxyError>,
)
    requires
        is_loaded(path, read, res),
    ensures
        res is Ok <==> read is Ok,
        read matches Ok(config) ==> (res matches Ok(loaded) && loaded.mcp_servers@
            == config.mcp_servers@ && loaded.http_server is Some && (config.http_server is Some
            ==> loaded.http_server->0@ == config.http_server->0@)),
        read matches Err(LoadFailure::Unreadable(reason)) ==> (res matches Err(error) && (
        error@ matches ProxyErrorView::Config(text) && occurs_in(text, path)
            && reason@.is_suffix_of(text))),
        read matches Err(LoadFailure::Malformed(reason)) ==> (res matches Err(error) && error@
            == ProxyErrorView::Json(reason@)),
{
    if let Err(LoadFailure::Unreadable(reason)) = read {
        let start = "Failed to read config file '"@;
        let text = start + path + "': "@ + reason@;
        let at = start.len() as int;
        assert(text.subrange(at, at + path.len()) =~= path);
        assert(occurs_at(text, path, at));
        assert(text.skip(text.len() - reason@.len()) =~= reason@);
    }
}

} // verus!
