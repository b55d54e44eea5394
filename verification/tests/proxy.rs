use std::collections::HashMap;
use std::sync::Arc;

use mcproxy::config::{HttpServerConfig, McpConfig, ServerConfig};
use mcproxy::description_enricher::DescriptionEnricherMiddleware;
use mcproxy::error::{ProxyError, RpcErrorKind};
use mcproxy::json::JsonValue;
use mcproxy::middleware::ProxyMiddleware;
use mcproxy::model::{Prompt, Resource, Tool};
use mcproxy::proxy::{
    call_error, get_info, http_connection_error, new_connected_server, next_shutdown_step,
    populate_server_capabilities, present_results, search_reply_text, transport_for, CallFailure,
    CallRoute, Fetched, ProxyServer, ShutdownEvent, ShutdownStep, StdioAction,
    StdioEvent, Transport,
};
use mcproxy::tool_search::{IndexReport, ToolSearchMiddleware, ToolSearchMiddlewareConfig};

fn text(value: &str) -> JsonValue {
    JsonValue::Text(value.to_string())
}

fn tool(name: &str, description: Option<&str>) -> Tool {
    Tool {
        name: name.to_string(),
        description: description.map(|text| text.to_string()),
        input_schema: Arc::new(text("schema")),
        annotations: Some(Arc::new(text("hint"))),
    }
}

fn prompt(name: &str) -> Prompt {
    Prompt { name: name.to_string(), description: Some("p".to_string()), arguments: None }
}

fn resource(uri: &str) -> Resource {
    Resource {
        uri: uri.to_string(),
        name: "r".to_string(),
        description: Some("r".to_string()),
        mime_type: None,
        size: None,
        annotations: None,
    }
}

fn enricher() -> ProxyMiddleware {
    ProxyMiddleware::DescriptionEnricher(DescriptionEnricherMiddleware::new(
        " (proxied)".to_string(),
        Vec::new(),
    ))
}

fn tool_search(limit: usize) -> ProxyMiddleware {
    ProxyMiddleware::ToolSearch(ToolSearchMiddleware::new(ToolSearchMiddlewareConfig {
        enabled: true,
        max_tools_limit: limit,
        search_threshold: 0.0f32.to_bits(),
        tool_selection_order: vec!["alphabetical".to_string()],
    }))
}

fn proxy(middleware: Vec<ProxyMiddleware>) -> ProxyServer {
    ProxyServer::new(McpConfig::default(), middleware)
}

fn connect(proxy: &mut ProxyServer, name: &str, tools: Vec<Tool>) {
    proxy.connect_server(name, Ok(tools), Ok(Vec::new()), Ok(Vec::new()));
}

fn names(tools: &[Tool]) -> Vec<&str> {
    tools.iter().map(|tool| tool.name.as_str()).collect()
}

fn query(value: JsonValue) -> JsonValue {
    JsonValue::Object(vec![("query".to_string(), value)])
}

#[test]
fn a_server_is_reached_as_it_is_configured() {
    let stdio = ServerConfig::Stdio {
        server_type: None,
        command: "echo".to_string(),
        args: vec!["x".to_string()],
        env: HashMap::new(),
    };
    match transport_for(&stdio) {
        Transport::Stdio(config) => {
            assert_eq!(config.command, "echo");
            assert_eq!(config.args, vec!["x"]);
        }
        Transport::Http { .. } => panic!("a process is not reached over HTTP"),
    }
    for (given, expected) in [("", None), ("secret", Some("secret"))] {
        let http = ServerConfig::Http {
            server_type: None,
            url: "http://localhost".to_string(),
            authorization_token: given.to_string(),
        };
        match transport_for(&http) {
            Transport::Http { url, token } => {
                assert_eq!(url, "http://localhost");
                assert_eq!(token.as_deref(), expected);
            }
            Transport::Stdio(_) => panic!("a server with a URL is no process"),
        }
    }
}

#[test]
fn a_process_is_remembered_until_it_is_given_up() {
    let mut proxy = proxy(Vec::new());
    assert_eq!(
        proxy.on_stdio_event("a", StdioEvent::Spawned),
        StdioAction::Serve
    );
    assert_eq!(
        proxy.on_stdio_event("b", StdioEvent::Spawned),
        StdioAction::Serve
    );
    assert_eq!(
        proxy.on_stdio_event("a", StdioEvent::Spawned),
        StdioAction::Serve
    );
    assert_eq!(proxy.on_stdio_event("b", StdioEvent::Served), StdioAction::Connected);
    assert_eq!(
        proxy.on_stdio_event("a", StdioEvent::NotServed { reason: "closed".to_string() }),
        StdioAction::GiveUp {
            kill: true,
            error: ProxyError::Connection {
                server: "a".to_string(),
                reason: "Failed to serve client: closed".to_string(),
            },
        }
    );
    match proxy.on_stdio_event("a", StdioEvent::NotServed { reason: "closed".to_string() }) {
        StdioAction::GiveUp { kill, .. } => assert!(!kill),
        _ => panic!("a server that does not answer is given up"),
    }
    let plan = proxy.shutdown();
    assert_eq!(plan.processes, vec!["b"]);
}

#[test]
fn a_process_that_does_not_start_is_an_error() {
    let mut proxy = proxy(Vec::new());
    assert_eq!(
        proxy.on_stdio_event("a", StdioEvent::NotSpawned { reason: "not found".to_string() }),
        StdioAction::GiveUp {
            kill: false,
            error: ProxyError::ProcessSpawn(
                "Failed to spawn child process: not found".to_string()
            ),
        }
    );
    assert!(proxy.shutdown().processes.is_empty());
    assert_eq!(
        http_connection_error("h", "refused"),
        ProxyError::Connection {
            server: "h".to_string(),
            reason: "Failed to serve HTTP client: refused".to_string(),
        }
    );
}

#[test]
fn a_server_is_remembered_with_what_it_offers() {
    let mut server = new_connected_server("s");
    let fetched = populate_server_capabilities(
        &mut server,
        Ok(vec![tool("t", None)]),
        Ok(vec![prompt("p")]),
        Ok(vec![resource("r")]),
    );
    assert_eq!(fetched, (Fetched::Items, Fetched::Items, Fetched::Items));
    assert_eq!(server.name, "s");
    assert_eq!((server.tools.len(), server.prompts.len(), server.resources.len()), (1, 1, 1));

    let unsupported = "Mcp error: -32601: method not found".to_string();
    let fetched = populate_server_capabilities(
        &mut server,
        Err(unsupported.clone()),
        Err(unsupported),
        Err("timeout".to_string()),
    );
    assert_eq!(fetched, (Fetched::Failed, Fetched::Unsupported, Fetched::Failed));
    assert_eq!((server.tools.len(), server.prompts.len(), server.resources.len()), (1, 1, 1));
}

#[test]
fn a_server_takes_the_place_of_one_of_its_name() {
    let mut proxy = proxy(Vec::new());
    connect(&mut proxy, "a", vec![tool("one", None)]);
    connect(&mut proxy, "b", vec![tool("two", None)]);
    connect(&mut proxy, "a", vec![tool("three", None), tool("four", None)]);
    let connected: Vec<&str> = proxy.servers().iter().map(|s| s.name.as_str()).collect();
    assert_eq!(connected, vec!["a", "b"]);
    assert_eq!(
        names(&proxy.get_all_tools_from_cache()),
        vec!["a___three", "a___four", "b___two"]
    );
}

#[test]
fn the_proxy_goes_on_where_a_server_is_connected_or_none_is_configured() {
    let failure = || Err(("b".to_string(), ProxyError::Config("no".to_string())));
    let empty = proxy(Vec::new());
    assert!(empty.finish_connecting(Vec::new()).is_ok());

    let mut mcp_servers = HashMap::new();
    mcp_servers.insert(
        "b".to_string(),
        ServerConfig::Http {
            server_type: None,
            url: "http://b".to_string(),
            authorization_token: String::new(),
        },
    );
    let config = McpConfig { mcp_servers, http_server: None };
    let configured = ProxyServer::new(config, Vec::new());
    let summary = configured
        .finish_connecting(vec![failure(), Ok("a".to_string()), Ok("c".to_string())])
        .ok()
        .unwrap();
    assert_eq!(summary.connected, vec!["a", "c"]);
    assert_eq!(
        summary.failed,
        vec![("b".to_string(), ProxyError::Config("no".to_string()))]
    );
    assert_eq!(
        configured.finish_connecting(vec![failure()]).err(),
        Some(ProxyError::Config("Failed to connect to any MCP servers".to_string()))
    );
    assert!(configured.finish_connecting(Vec::new()).is_err());
}

#[test]
fn items_are_listed_with_their_server_before_them() {
    let mut proxy = proxy(vec![enricher()]);
    let tools = proxy.get_all_tools(vec![
        ("a".to_string(), Ok(vec![tool("x", Some("d")), tool("y", None)])),
        ("b".to_string(), Err("closed".to_string())),
        ("c".to_string(), Ok(vec![tool("x", Some("e"))])),
    ]);
    assert_eq!(names(&tools), vec!["a___x", "a___y", "c___x"]);
    assert_eq!(tools[0].description.as_deref(), Some("d (proxied)"));
    assert_eq!(tools[1].description, None);
    assert_eq!(*tools[2].input_schema, text("schema"));
    assert_eq!(tools[2].annotations, Some(Arc::new(text("hint"))));

    let prompts = proxy.get_all_prompts(vec![
        ("a".to_string(), Err("closed".to_string())),
        ("b".to_string(), Ok(vec![prompt("x")])),
    ]);
    assert_eq!(prompts.len(), 1);
    assert_eq!(prompts[0].name, "b___x");
    assert_eq!(prompts[0].description.as_deref(), Some("p (proxied)"));

    let resources =
        proxy.get_all_resources(vec![("b".to_string(), Ok(vec![resource("file:///x")]))]);
    assert_eq!(resources.len(), 1);
    assert_eq!(resources[0].uri, "b___file:///x");
    assert_eq!(resources[0].name, "b___r");
    assert_eq!(resources[0].description.as_deref(), Some("r (proxied)"));
}

#[test]
fn without_servers_nothing_is_listed() {
    let mut proxy = proxy(vec![tool_search(2)]);
    assert!(proxy.get_all_tools(Vec::new()).is_empty());
    assert!(proxy.get_all_prompts(Vec::new()).is_empty());
    assert!(proxy.get_all_resources(Vec::new()).is_empty());
}

#[test]
fn middleware_works_one_after_the_other() {
    let answers = || {
        vec![("a".to_string(), Ok(vec![tool("z", Some("d")), tool("y", Some("e"))]))]
    };
    // The search tool comes behind the enricher and stays as it is.
    let mut proxy_a = proxy(vec![enricher(), tool_search(1)]);
    let tools = proxy_a.get_all_tools(answers());
    assert_eq!(names(&tools), vec!["a___y", "search_available_tools"]);
    assert_eq!(tools[0].description.as_deref(), Some("e (proxied)"));
    assert!(tools[1].description.as_ref().unwrap().ends_with("or description."));
    // The other way round it is enriched too.
    let mut proxy_b = proxy(vec![tool_search(1), enricher()]);
    let tools = proxy_b.get_all_tools(answers());
    assert_eq!(names(&tools), vec!["a___y", "search_available_tools"]);
    assert!(tools[1].description.as_ref().unwrap().ends_with("or description. (proxied)"));
}

#[test]
fn a_call_goes_to_the_server_that_offers_the_tool() {
    let mut proxy = proxy(Vec::new());
    connect(&mut proxy, "github", vec![tool("create_issue", None)]);
    let tools =
        proxy.get_all_tools(vec![("github".to_string(), Ok(vec![tool("create_issue", None)]))]);
    assert_eq!(
        proxy.call_tool_on_server(&tools[0].name),
        Ok(CallRoute::Server {
            server: "github".to_string(),
            tool: "create_issue".to_string(),
        })
    );
    assert_eq!(proxy.call_tool_on_server("search_available_tools"), Ok(CallRoute::Search));
}

#[test]
fn a_call_of_no_tool_is_an_error() {
    let proxy = proxy(Vec::new());
    for name in ["", "invalid_tool_name_without_prefix"] {
        assert_eq!(
            proxy.call_tool_on_server(name),
            Err(ProxyError::InvalidFormat(format!("Invalid prefixed name format: {}", name)))
        );
    }
    assert_eq!(
        proxy.call_tool_on_server("nonexistent_server___some_tool"),
        Err(ProxyError::ServerNotFound("nonexistent_server".to_string()))
    );
}

#[test]
fn a_failed_call_is_answered_with_an_error() {
    assert_eq!(call_error("s", CallFailure::Answered(7)), Ok(7));
    let error = call_error::<u8>("s", CallFailure::NotAnswered("closed".to_string())).unwrap_err();
    assert_eq!(error.kind, RpcErrorKind::InternalError);
    assert_eq!(error.kind.code(), -32603);
    assert_eq!(error.message, "Failed to call tool on server s: closed");
}

#[test]
fn a_search_without_a_query_is_an_error() {
    let mut proxy = proxy(vec![tool_search(2)]);
    let empty = JsonValue::Object(Vec::new());
    let number = query(JsonValue::Number("1".to_string()));
    for arguments in [None, Some(&empty), Some(&number)] {
        let error = proxy.handle_search_tool_call(arguments).unwrap_err();
        assert_eq!(error.kind, RpcErrorKind::InvalidParams);
        assert_eq!(error.kind.code(), -32602);
        assert_eq!(error.message, "Missing required 'query' parameter");
    }
}

#[test]
fn a_search_without_a_tool_search_is_an_error() {
    let mut proxy = proxy(vec![enricher()]);
    assert!(proxy.can_search(Some(&query(text("x")))));
    let error = proxy.handle_search_tool_call(Some(&query(text("x")))).unwrap_err();
    assert_eq!(error.kind, RpcErrorKind::InternalError);
    assert_eq!(error.message, "Tool search middleware not found");
    assert_eq!(proxy.initialize_tool_search_index(), None);
}

#[test]
fn an_empty_query_is_answered() {
    let mut proxy = proxy(vec![tool_search(2)]);
    let reply = proxy.handle_search_tool_call(Some(&query(text("")))).unwrap();
    assert_eq!(reply.text, "No tools found matching ''. Try a different search term.");
    assert!(!reply.is_error);
}

#[test]
fn a_search_with_a_limit_of_zero_is_not_answered() {
    let mut proxy = proxy(vec![tool_search(0)]);
    let arguments = query(text("x"));
    // There is no index yet.
    assert!(proxy.answer_search_tool_call(Some(&arguments)).is_some());
    connect(&mut proxy, "s", vec![tool("x", None)]);
    proxy.initialize_tool_search_index();
    assert!(!proxy.can_search(Some(&arguments)));
    assert!(proxy.answer_search_tool_call(Some(&arguments)).is_none());
    // Without a query there is nothing to search.
    assert!(proxy.can_search(None));
    assert!(proxy.answer_search_tool_call(None).unwrap().is_err());
}

#[test]
fn a_search_for_a_query_that_cannot_be_read_is_not_answered() {
    let mut proxy = proxy(vec![tool_search(2)]);
    let deep = query(text(&format!("{}x{}", "(".repeat(60), ")".repeat(60))));
    assert!(proxy.answer_search_tool_call(Some(&deep)).is_some());
    proxy.initialize_tool_search_index();
    assert!(!proxy.can_search(Some(&deep)));
    assert!(proxy.answer_search_tool_call(Some(&deep)).is_none());
    assert!(proxy.answer_search_tool_call(Some(&query(text("- *")))).is_none());
    assert!(proxy.answer_search_tool_call(Some(&query(text("(x)")))).is_some());
    let nested = format!("{}x{}", "(".repeat(13), ")".repeat(13));
    assert!(proxy.answer_search_tool_call(Some(&query(text(&nested)))).is_some());
}

#[test]
fn what_a_search_finds_is_listed_next() {
    let offered = || {
        vec![
            tool("file_read", Some("Read files")),
            tool("file_write", Some("Write files")),
            tool("web_scrape", Some("Scrape web pages")),
            tool("web_fetch", None),
        ]
    };
    let answers = || vec![("s".to_string(), Ok(offered()))];
    let mut proxy = proxy(vec![enricher(), tool_search(2)]);
    connect(&mut proxy, "s", offered());
    assert_eq!(
        proxy.initialize_tool_search_index(),
        Some(IndexReport::Committed { taken: vec![true; 4] })
    );
    let tools = proxy.get_all_tools(answers());
    assert_eq!(
        names(&tools),
        vec!["s___file_read", "s___file_write", "search_available_tools"]
    );

    let reply = proxy.answer_search_tool_call(Some(&query(text("scrape")))).unwrap().unwrap();
    assert_eq!(
        reply.text,
        "Found 1 tool(s) matching 'scrape':\n\n1. **s___web_scrape**\n   Scrape web pages \
         (proxied)\n\nThese tools are now available in your current session. Use `tools/list` to \
         see the updated tool list."
    );
    assert!(!reply.is_error);
    let tools = proxy.get_all_tools(answers());
    assert_eq!(names(&tools), vec!["s___web_scrape", "search_available_tools"]);

    // A search that finds nothing leaves what is listed as it is.
    let reply = proxy.handle_search_tool_call(Some(&query(text("nothing")))).unwrap();
    assert_eq!(reply.text, "No tools found matching 'nothing'. Try a different search term.");
    let tools = proxy.get_all_tools(answers());
    assert_eq!(names(&tools), vec!["s___web_scrape", "search_available_tools"]);
}

#[test]
fn results_are_presented_in_their_order() {
    let results = vec![tool("a___x", None), tool("b___y", Some("does y"))];
    let expected = "Found 2 tool(s) matching 'q':\n\n1. **a___x**\n\n2. **b___y**\n   does \
                    y\n\nThese tools are now available in your current session. Use `tools/list` \
                    to see the updated tool list.";
    assert_eq!(search_reply_text("q", &results), expected);

    let mut search = ToolSearchMiddleware::new(ToolSearchMiddlewareConfig::default());
    let reply = present_results(&mut search, "q", Vec::new());
    assert_eq!(reply.text, "No tools found matching 'q'. Try a different search term.");
    assert!(!search.is_search_tool_injected());
    let reply = present_results(&mut search, "q", results);
    assert_eq!(reply.text, expected);
    assert!(search.is_search_tool_injected());
    assert_eq!(names(&search.get_exposed_tools()), vec!["a___x", "b___y"]);
}

#[test]
fn a_shutdown_forgets_all_servers() {
    let http = HttpServerConfig { shutdown_timeout: 30, ..HttpServerConfig::default() };
    let config = McpConfig { mcp_servers: HashMap::new(), http_server: Some(http) };
    let mut proxy = ProxyServer::new(config, Vec::new());
    connect(&mut proxy, "a", Vec::new());
    proxy.on_stdio_event("a", StdioEvent::Spawned);
    let plan = proxy.shutdown();
    assert_eq!(plan.timeout, 30);
    assert_eq!(plan.processes, vec!["a"]);
    assert!(proxy.servers().is_empty());
    assert!(proxy.shutdown().processes.is_empty());
    assert_eq!(
        proxy.call_tool_on_server("a___x"),
        Err(ProxyError::ServerNotFound("a".to_string()))
    );

    let config = McpConfig { mcp_servers: HashMap::new(), http_server: None };
    assert_eq!(ProxyServer::new(config, Vec::new()).shutdown().timeout, 5);
}

#[test]
fn a_process_is_asked_then_waited_for_then_killed() {
    let next = |event| next_shutdown_step(event, 5);
    assert_eq!(
        next(ShutdownEvent::Begin { pid: Some(42) }),
        ShutdownStep::Ask { group: -42 }
    );
    assert_eq!(next(ShutdownEvent::Begin { pid: None }), ShutdownStep::Wait { seconds: 5 });
    assert_eq!(
        next(ShutdownEvent::Begin { pid: Some(u32::MAX) }),
        ShutdownStep::Wait { seconds: 5 }
    );
    assert_eq!(next(ShutdownEvent::Asked), ShutdownStep::Wait { seconds: 5 });
    assert_eq!(next(ShutdownEvent::TimedOut), ShutdownStep::Kill);
    assert_eq!(next(ShutdownEvent::Ended), ShutdownStep::Done);
}

#[test]
fn the_proxy_says_what_it_is() {
    let info = get_info("1.2.3");
    assert_eq!(info.name, "mcproxy");
    assert_eq!(info.version, "1.2.3");
    assert_eq!(
        info.instructions,
        "MCP Proxy Server aggregates tools from multiple MCP servers"
    );
    assert!(info.tools_list_changed);
    assert!(info.prompts_list_changed);
    assert!(info.resources_list_changed);
}
