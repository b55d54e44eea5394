use std::sync::Arc;

use tantivy::schema::{Schema, STORED, TEXT};
use tantivy::{Index, TantivyDocument, TantivyError};

use mcproxy::error::ProxyError;
use mcproxy::json::JsonValue;
use mcproxy::model::Tool;
use mcproxy::tool_search::{
    IndexAttempt, IndexReport, SearchHit, ToolSearchMiddleware, ToolSearchMiddlewareConfig,
    ToolSearchMiddlewareFactory,
};

fn create_test_tool(name: &str, description: &str) -> Tool {
    Tool {
        name: name.to_string(),
        description: Some(description.to_string()),
        input_schema: Arc::new(JsonValue::Object(vec![
            ("type".to_string(), JsonValue::Text("object".to_string())),
            ("properties".to_string(), JsonValue::Object(Vec::new())),
        ])),
        annotations: None,
    }
}

fn create_test_config(max_tools: usize, threshold: f32) -> ToolSearchMiddlewareConfig {
    ToolSearchMiddlewareConfig {
        enabled: true,
        max_tools_limit: max_tools,
        search_threshold: threshold.to_bits(),
        tool_selection_order: vec!["alphabetical".to_string()],
    }
}

fn names(tools: &[Tool]) -> Vec<&str> {
    tools.iter().map(|tool| tool.name.as_str()).collect()
}

#[test]
fn test_tool_indexing() {
    let config = create_test_config(50, 0.1);
    let mut middleware = ToolSearchMiddleware::new(config);

    let tools = vec![
        create_test_tool("server1___file_search", "Search for files in the filesystem"),
        create_test_tool("server2___web_scrape", "Scrape content from web pages"),
    ];

    middleware.update_tool_index(&tools);

    // Verify index was created
    assert!(middleware.has_index());

    // Verify tool storage has correct count
    assert_eq!(middleware.stored_count(), 2);

    // Verify tools can be found by search
    let results = middleware.search_tools("file_search");
    assert_eq!(results.len(), 1);
    assert!(results[0].name.contains("file_search"));
}

#[test]
fn test_fuzzy_search() {
    let config = create_test_config(50, 0.05); // Very low threshold for testing
    let mut middleware = ToolSearchMiddleware::new(config);

    let tools = vec![
        create_test_tool("server1___file_search", "Search for files in the filesystem"),
        create_test_tool("server1___file_write", "Write content to a file"),
        create_test_tool("server2___web_scrape", "Scrape content from web pages"),
        create_test_tool("server2___web_download", "Download files from the web"),
    ];

    middleware.update_tool_index(&tools);

    // Test search for "file" - should match file-related tools
    let results = middleware.search_tools("file");
    assert!(results.len() >= 1, "Should find at least 1 file-related tool");

    // Test search for "web" - should match web-related tools
    let results = middleware.search_tools("web");
    assert!(results.len() >= 1, "Should find at least 1 web-related tool");

    // Test search for exact match
    let results = middleware.search_tools("file_search");
    assert!(results.len() >= 1);
    assert!(results.iter().any(|t| t.name.contains("file_search")));
}

#[test]
fn test_search_threshold() {
    let config = create_test_config(50, 0.9); // High threshold
    let mut middleware = ToolSearchMiddleware::new(config);

    let tools = vec![create_test_tool(
        "server1___completely_different_tool",
        "A tool that does something else",
    )];

    middleware.update_tool_index(&tools);

    // Search for something that doesn't match well - should return no results
    let results = middleware.search_tools("xyz");
    assert!(results.is_empty());
}

#[test]
fn test_search_result_limit() {
    let config = create_test_config(2, 0.1); // Limit to 2 results
    let mut middleware = ToolSearchMiddleware::new(config);

    let tools = vec![
        create_test_tool("server1___file_search", "Search for files"),
        create_test_tool("server1___file_write", "Write files"),
        create_test_tool("server1___file_read", "Read files"),
        create_test_tool("server1___file_delete", "Delete files"),
    ];

    middleware.update_tool_index(&tools);

    let results = middleware.search_tools("file");
    assert!(results.len() <= 2);
}

#[test]
fn test_selective_tool_exposure() {
    let config = create_test_config(2, 0.3); // Only expose 2 tools initially
    let mut middleware = ToolSearchMiddleware::new(config);

    let mut tools = vec![
        create_test_tool("server1___zebra_tool", "Tool starting with Z"),
        create_test_tool("server1___alpha_tool", "Tool starting with A"),
        create_test_tool("server1___beta_tool", "Tool starting with B"),
    ];

    // Apply middleware - should limit tools and add search tool
    middleware.on_list_tools(&mut tools);

    // Should have 2 original tools + 1 search tool = 3 total
    assert_eq!(tools.len(), 3);

    // Should have the search tool
    assert!(tools.iter().any(|t| t.name == "search_available_tools"));

    // Should have alphabetically sorted tools (alpha_tool, beta_tool)
    let non_search_tools: Vec<_> =
        tools.iter().filter(|t| t.name != "search_available_tools").collect();
    assert_eq!(non_search_tools.len(), 2);
    assert!(non_search_tools[0].name.contains("alpha"));
    assert!(non_search_tools[1].name.contains("beta"));
}

#[test]
fn test_no_limiting_when_under_threshold() {
    let config = create_test_config(50, 0.3); // High limit
    let mut middleware = ToolSearchMiddleware::new(config);

    let mut tools = vec![
        create_test_tool("server1___tool1", "Tool 1"),
        create_test_tool("server1___tool2", "Tool 2"),
    ];

    let original_count = tools.len();

    // Apply middleware - should not limit tools or add search tool
    middleware.on_list_tools(&mut tools);

    // Should have the same number of tools (no search tool added)
    assert_eq!(tools.len(), original_count);

    // Should not have the search tool
    assert!(!tools.iter().any(|t| t.name == "search_available_tools"));
}

#[test]
fn test_search_tool_creation() {
    let config = create_test_config(50, 0.3);
    let middleware = ToolSearchMiddleware::new(config);

    let search_tool = middleware.create_search_tool(25);

    assert_eq!(search_tool.name, "search_available_tools");
    assert!(search_tool.description.is_some());
    assert!(search_tool.description.as_ref().unwrap().contains("25 additional"));

    // Verify schema structure
    let schema = &search_tool.input_schema;
    assert!(schema.get("type").is_some());
    assert!(schema.get("properties").is_some());
    assert!(schema.get("required").is_some());
}

#[test]
fn test_search_flow_with_notification() {
    let config = create_test_config(2, 0.05); // Only expose 2 tools initially
    let mut middleware = ToolSearchMiddleware::new(config);

    // Setup initial tools
    let mut tools = vec![
        create_test_tool("server1___file_search", "Search for files"),
        create_test_tool("server1___file_write", "Write files"),
        create_test_tool("server1___web_scrape", "Scrape web pages"),
        create_test_tool("server1___web_download", "Download files"),
    ];

    // Apply middleware to simulate initial tool limiting
    middleware.on_list_tools(&mut tools);

    // Should have 2 original tools + 1 search tool = 3 total
    assert_eq!(tools.len(), 3);
    assert!(tools.iter().any(|t| t.name == "search_available_tools"));

    // Perform search
    let search_results = middleware.search_tools("web");
    assert!(search_results.len() >= 2, "Should find web-related tools");

    // Update exposed tools (this is what happens in handle_search_tool_call)
    middleware.update_exposed_tools(search_results.clone());

    // Verify the search tool is now injected
    assert!(middleware.is_search_tool_injected());

    // Get the new exposed tools
    let exposed_tools = middleware.get_exposed_tools();

    // Should have the search results
    assert_eq!(exposed_tools.len(), search_results.len());
    assert!(exposed_tools.iter().any(|t| t.name.contains("web")));
}

#[test]
fn test_tools_list_returns_search_results_after_search() {
    let config = create_test_config(2, 0.05); // Only expose 2 tools initially
    let mut middleware = ToolSearchMiddleware::new(config);

    // Setup initial tools
    let original_tools = vec![
        create_test_tool("server1___file_search", "Search for files"),
        create_test_tool("server1___file_write", "Write files"),
        create_test_tool("server1___web_scrape", "Scrape web pages"),
        create_test_tool("server1___web_download", "Download files"),
    ];

    // Apply middleware to simulate initial tool limiting
    let mut tools_for_client = original_tools.clone();
    middleware.on_list_tools(&mut tools_for_client);

    // Should have 2 original tools + 1 search tool = 3 total
    assert_eq!(tools_for_client.len(), 3);
    assert!(tools_for_client.iter().any(|t| t.name == "search_available_tools"));

    // Perform search (simulating search_available_tools call)
    let search_results = middleware.search_tools("web");
    assert!(search_results.len() >= 2, "Should find web-related tools");

    // Update exposed tools (this is what happens in handle_search_tool_call)
    middleware.update_exposed_tools(search_results.clone());

    // Now simulate a client calling tools/list after receiving notification
    let mut tools_after_search = original_tools.clone();
    middleware.on_list_tools(&mut tools_after_search);

    // Should now return search results + search tool (not the original limited set)
    assert!(tools_after_search.len() >= 3, "Should have search results + search tool");
    assert!(tools_after_search.iter().any(|t| t.name == "search_available_tools"));
    assert!(tools_after_search.iter().any(|t| t.name.contains("web_scrape")));
    assert!(tools_after_search.iter().any(|t| t.name.contains("web_download")));

    // Should NOT have the original limited tools (file_search, file_write)
    assert!(!tools_after_search.iter().any(|t| t.name.contains("file_search")));
    assert!(!tools_after_search.iter().any(|t| t.name.contains("file_write")));
}

#[test]
fn test_middleware_config_defaults() {
    let config = ToolSearchMiddlewareConfig::default();

    assert!(config.enabled);
    assert_eq!(config.max_tools_limit, 50);
    assert_eq!(f32::from_bits(config.search_threshold), 0.1);
    assert_eq!(config.tool_selection_order, vec!["server_priority"]);
}

#[test]
fn test_middleware_factory() {
    let factory = ToolSearchMiddlewareFactory;

    assert_eq!(factory.middleware_type(), "tool_search");

    // Test with null config (should use defaults)
    let middleware = factory.create(None);
    assert!(middleware.is_ok());

    // Test with custom config
    let config = ToolSearchMiddlewareConfig {
        enabled: true,
        max_tools_limit: 25,
        ..ToolSearchMiddlewareConfig::default()
    };

    let mut middleware = factory.create(Some(Ok(config))).unwrap();
    let mut tools: Vec<Tool> =
        (0..30).map(|i| create_test_tool(&format!("s___t{}", i), "A tool")).collect();
    middleware.on_list_tools(&mut tools);
    assert_eq!(tools.len(), 26);
}

#[test]
fn test_update_exposed_tools() {
    let config = create_test_config(50, 0.3);
    let mut middleware = ToolSearchMiddleware::new(config);

    let new_tools = vec![
        create_test_tool("server1___tool1", "Tool 1"),
        create_test_tool("server2___tool2", "Tool 2"),
    ];

    middleware.update_exposed_tools(new_tools.clone());

    let exposed = middleware.get_exposed_tools();
    assert_eq!(exposed.len(), 2);
    assert!(middleware.is_search_tool_injected());
}

#[test]
fn test_github_style_search() {
    let config = create_test_config(50, 0.05); // Very low threshold for testing
    let mut middleware = ToolSearchMiddleware::new(config);

    // Create tools that match the actual GitHub tools from the logs
    let tools = vec![
        create_test_tool(
            "github___add_issue_comment",
            "Add a comment to a specific issue in a GitHub repository",
        ),
        create_test_tool("github___create_issue", "Create a new issue in a GitHub repository"),
        create_test_tool(
            "github___get_issue",
            "Get details of a specific issue in a GitHub repository",
        ),
        create_test_tool(
            "github___search_issues",
            "Search for issues in GitHub repositories using issues search syntax",
        ),
        create_test_tool(
            "buildkite___get_build_info",
            "Get basic metadata about a buildkite build",
        ),
        create_test_tool("vault___get_user", "Get user information from vault"),
    ];

    middleware.update_tool_index(&tools);

    // Test search for "github" - should match all GitHub tools
    let results = middleware.search_tools("github");
    assert!(results.len() >= 4, "Should find at least 4 GitHub tools");
    assert!(results.iter().any(|t| t.name.contains("add_issue_comment")));
    assert!(results.iter().any(|t| t.name.contains("create_issue")));

    // Test search for "issue" - should match issue-related tools
    let results = middleware.search_tools("issue");
    assert!(results.len() >= 3, "Should find at least 3 issue-related tools");

    // Test search for "github issue" - should match issue-related GitHub tools
    let results = middleware.search_tools("github issue");
    assert!(results.len() >= 3, "Should find at least 3 GitHub issue tools");

    // Test search for "issue comment" - should match issue comment tools
    let results = middleware.search_tools("issue comment");
    assert!(results.len() >= 1, "Should find at least 1 issue comment tool");

    // Test search for "GitHub repository" - should match issue-related tools
    let results = middleware.search_tools("GitHub repository");
    assert!(results.len() >= 3, "Should find at least 3 GitHub repository tools");
}

#[test]
fn a_wrong_configuration_is_an_error_that_says_why() {
    let error = ToolSearchMiddlewareFactory.create(Some(Err("missing field".to_string()))).err();
    assert_eq!(
        error,
        Some(ProxyError::Config("Invalid tool search configuration: missing field".to_string()))
    );
}

#[test]
fn the_search_tool_says_what_it_is() {
    let tool = ToolSearchMiddleware::new(create_test_config(1, 0.1)).create_search_tool(3);
    assert_eq!(
        tool.description.unwrap(),
        "Search through 3 additional available tools. Provide a search query to find relevant \
         tools by name or description."
    );
    assert_eq!(tool.input_schema.get("type").unwrap().as_str(), Some("object"));
    let query = tool.input_schema.get("properties").unwrap().get("query").unwrap();
    assert_eq!(query.get("type").unwrap().as_str(), Some("string"));
    assert_eq!(
        query.get("description").unwrap().as_str(),
        Some("Search query to find relevant tools by name or description")
    );
    assert_eq!(
        *tool.input_schema.get("required").unwrap(),
        JsonValue::Array(vec![JsonValue::Text("query".to_string())])
    );
    assert_eq!(tool.annotations, None);
}

#[test]
fn without_an_index_nothing_is_found() {
    let middleware = ToolSearchMiddleware::new(create_test_config(0, 0.1));
    assert!(!middleware.has_index());
    assert!(middleware.can_search("file"));
    assert!(middleware.search_hits("file").is_empty());
    assert!(middleware.search_tools("file").is_empty());
}

#[test]
fn a_search_for_no_tools_cannot_be_made() {
    for limit in [0, usize::MAX] {
        let mut middleware = ToolSearchMiddleware::new(create_test_config(limit, 0.1));
        middleware.refresh_tool_index(&vec![create_test_tool("a___b", "c")]);
        assert!(!middleware.can_search("c"));
        assert!(!middleware.can_search("open (file"));
        // What is no query, nor one in quotation marks, is not asked.
        assert!(middleware.can_search("\"open ("));
        assert!(middleware.search_tools("\"open (").is_empty());
    }
}

#[test]
fn indexing_says_what_became_of_the_tools() {
    let mut middleware = ToolSearchMiddleware::new(create_test_config(50, 0.0));
    let tools = vec![create_test_tool("a___one", "first"), create_test_tool("a___two", "second")];
    let report = middleware.refresh_tool_index(&tools);
    assert_eq!(report, IndexReport::Committed { taken: vec![true, true] });
    assert_eq!(middleware.stored_count(), 2);
    assert_eq!(names(&middleware.search_tools("second")), vec!["a___two"]);

    // The new tools are in place of the ones before.
    let report = middleware.refresh_tool_index(&vec![create_test_tool("a___three", "third")]);
    assert_eq!(report, IndexReport::Committed { taken: vec![true] });
    assert_eq!(middleware.stored_count(), 1);
    assert!(middleware.search_tools("second").is_empty());
    assert_eq!(names(&middleware.search_tools("third")), vec!["a___three"]);
}

#[test]
fn hits_have_names_and_scores_the_best_first() {
    let mut middleware = ToolSearchMiddleware::new(create_test_config(50, 0.0));
    let tools = vec![
        create_test_tool("a___one", "apple"),
        create_test_tool("b___two", "apple apple apple"),
        create_test_tool("c___three", "pear"),
    ];
    middleware.update_tool_index(&tools);
    let hits = middleware.search_hits("apple");
    assert_eq!(hits.len(), 2);
    assert_eq!(hits[0].name.as_deref(), Some("b___two"));
    assert_eq!(hits[1].name.as_deref(), Some("a___one"));
    assert!(f32::from_bits(hits[0].score) > f32::from_bits(hits[1].score));
    assert!(f32::from_bits(hits[1].score) > 0.0);
    assert_eq!(names(&middleware.search_tools("apple")), vec!["b___two", "a___one"]);
    assert_eq!(middleware.search_hits("pear").len(), 1);
    assert!(middleware.search_hits("plum").is_empty());
    assert_eq!(middleware.search_hits("name:one").len(), 1);
    assert_eq!(middleware.search_hits("server:b").len(), 1);
}

#[test]
fn what_is_no_query_is_asked_in_quotation_marks() {
    let mut middleware = ToolSearchMiddleware::new(create_test_config(50, 0.0));
    let tools = vec![create_test_tool("a___one", "open (file"), create_test_tool("a___two", "x")];
    middleware.update_tool_index(&tools);
    // Not a query as it stands, but one in quotation marks.
    assert_eq!(names(&middleware.search_tools("open (file")), vec!["a___one"]);
    assert_eq!(names(&middleware.search_tools("nosuchfield:open")), Vec::<&str>::new());
    // Not a query in quotation marks either.
    assert!(middleware.search_tools("\"open (").is_empty());
}

#[test]
fn the_results_of_hits_are_stored_tools_that_pass() {
    let mut middleware = ToolSearchMiddleware::new(create_test_config(50, 0.1));
    let tools = vec![
        create_test_tool("a___one", "first"),
        create_test_tool("a___two", "second"),
        create_test_tool("a___one", "again"),
    ];
    middleware.update_tool_index(&tools);
    let hit = |score: f32, name: Option<&str>| SearchHit {
        score: score.to_bits(),
        name: name.map(|name| name.to_string()),
    };
    let hits = vec![
        hit(5.0, Some("a___two")),
        hit(4.0, Some("a___missing")),
        hit(3.0, None),
        hit(1.0, Some("a___one")),
        hit(0.99, Some("a___two")),
        hit(f32::NAN, Some("a___two")),
    ];
    let results = middleware.tools_for_hits(&hits);
    assert_eq!(names(&results), vec!["a___two", "a___one"]);
    assert_eq!(results[1].description.as_deref(), Some("first"));
}

#[test]
fn tools_are_selected_in_the_configured_orders() {
    let select = |orders: &[&str], limit: usize| {
        let config = ToolSearchMiddlewareConfig {
            tool_selection_order: orders.iter().map(|order| order.to_string()).collect(),
            ..create_test_config(limit, 0.1)
        };
        let tools = vec![
            create_test_tool("b___z", ""),
            create_test_tool("unprefixed", ""),
            create_test_tool("a-b___y", ""),
            create_test_tool("a___z", "1"),
            create_test_tool("b___x", ""),
            create_test_tool("a___z", "2"),
        ];
        let selected = ToolSearchMiddleware::new(config).select_initial_tools(&tools);
        selected.iter().map(|tool| tool.name.clone()).collect::<Vec<String>>()
    };
    assert_eq!(select(&[], 3), vec!["b___z", "unprefixed", "a-b___y"]);
    assert_eq!(select(&["usage_frequency", "nonsense"], 2), vec!["b___z", "unprefixed"]);
    assert_eq!(
        select(&["alphabetical"], 5),
        vec!["a-b___y", "a___z", "a___z", "b___x", "b___z"]
    );
    assert_eq!(
        select(&["server_priority"], 5),
        vec!["a___z", "a___z", "a-b___y", "b___x", "b___z"]
    );
    assert_eq!(select(&["server_priority", "alphabetical"], 1), vec!["a-b___y"]);
    assert_eq!(select(&["alphabetical"], 6).len(), 6);
    assert_eq!(select(&["alphabetical"], 6)[0], "b___z");
    assert!(select(&["alphabetical"], 0).is_empty());
}

#[test]
fn a_tool_search_that_is_off_changes_nothing() {
    let config = ToolSearchMiddlewareConfig { enabled: false, ..create_test_config(1, 0.1) };
    let mut middleware = ToolSearchMiddleware::new(config);
    let mut tools = vec![create_test_tool("a___z", "1"), create_test_tool("a___y", "2")];
    middleware.on_list_tools(&mut tools);
    assert_eq!(names(&tools), vec!["a___z", "a___y"]);
    assert!(!middleware.has_index());
    assert!(middleware.get_exposed_tools().is_empty());
    assert_eq!(names(&middleware.select_initial_tools(&tools)), vec!["a___z", "a___y"]);
}

#[test]
fn a_listing_repeats() {
    let mut middleware = ToolSearchMiddleware::new(create_test_config(1, 0.1));
    let all = vec![create_test_tool("a___z", "1"), create_test_tool("a___y", "2")];
    let mut first = all.clone();
    middleware.on_list_tools(&mut first);
    assert_eq!(names(&first), vec!["a___y", "search_available_tools"]);
    assert!(first[1].description.as_ref().unwrap().starts_with("Search through 1 additional"));
    let mut second = all.clone();
    middleware.on_list_tools(&mut second);
    assert_eq!(names(&second), names(&first));

    // What is exposed later is shown, with the search tool behind it.
    middleware.update_exposed_tools(vec![all[0].clone(), all[1].clone(), all[0].clone()]);
    let mut third = all.clone();
    middleware.on_list_tools(&mut third);
    assert_eq!(names(&third), vec!["a___z", "a___y", "a___z", "search_available_tools"]);
    assert!(third[3].description.as_ref().unwrap().starts_with("Search through 0 additional"));
}

/// An index of documents with the given names, with the fields of tools.
fn index_of(names: &[&str]) -> Index {
    let mut builder = Schema::builder();
    let name = builder.add_text_field("name", TEXT | STORED);
    builder.add_text_field("description", TEXT | STORED);
    builder.add_text_field("server", TEXT | STORED);
    let searchable_text = builder.add_text_field("searchable_text", TEXT);
    let index = Index::create_in_ram(builder.build());
    let mut writer = index.writer_with_num_threads(1, 15_000_000).unwrap();
    for text in names {
        let mut document = TantivyDocument::new();
        document.add_text(name, text);
        document.add_text(searchable_text, text);
        writer.add_document(document).unwrap();
    }
    writer.commit().unwrap();
    index
}

#[test]
fn an_attempt_to_index_is_taken_over() {
    let mut middleware = ToolSearchMiddleware::new(create_test_config(50, 0.0));
    let tools = vec![create_test_tool("apple", ""), create_test_tool("pear", "")];

    let report = middleware.apply_index_attempt(&tools, IndexAttempt::NotOpened);
    assert_eq!(report, IndexReport::NoWriter);
    assert_eq!(middleware.stored_count(), 0);
    assert!(!middleware.has_index());

    let failed = IndexAttempt::Written {
        taken: vec![false, true],
        committed: Err(TantivyError::InvalidArgument("no".to_string())),
    };
    let report = middleware.apply_index_attempt(&tools, failed);
    assert_eq!(report, IndexReport::NotCommitted { taken: vec![false, true] });
    assert_eq!(middleware.stored_count(), 1);
    assert!(!middleware.has_index());

    let written =
        IndexAttempt::Written { taken: vec![true, false], committed: Ok(index_of(&["apple"])) };
    let report = middleware.apply_index_attempt(&tools, written);
    assert_eq!(report, IndexReport::Committed { taken: vec![true, false] });
    assert_eq!(middleware.stored_count(), 1);
    assert!(middleware.has_index());
    assert_eq!(names(&middleware.search_tools("apple")), vec!["apple"]);

    // The index stays when the next one cannot be opened.
    let report = middleware.apply_index_attempt(&tools, IndexAttempt::NotOpened);
    assert_eq!(report, IndexReport::NoWriter);
    assert_eq!(names(&middleware.search_tools("apple")), vec!["apple"]);
}

#[test]
fn an_answer_of_the_index_is_read() {
    let middleware = ToolSearchMiddleware::new(create_test_config(50, 0.0));
    let searcher = index_of(&["apple", "pear"]).reader().unwrap().searcher();
    assert!(middleware.hits_for_answer(&searcher, &None).is_empty());
    assert!(middleware.hits_for_answer(&searcher, &Some(Vec::new())).is_empty());
    let answer = Some(vec![(2.0f32.to_bits(), (0, 1)), (1.0f32.to_bits(), (0, 0))]);
    let hit = |score: f32, name: &str| SearchHit {
        score: score.to_bits(),
        name: Some(name.to_string()),
    };
    assert_eq!(
        middleware.hits_for_answer(&searcher, &answer),
        vec![hit(2.0, "pear"), hit(1.0, "apple")]
    );
}

#[test]
fn a_query_that_cannot_be_read_is_not_asked() {
    let mut middleware = ToolSearchMiddleware::new(create_test_config(50, 0.0));
    let deep = format!("{}apple{}", "(".repeat(60), ")".repeat(60));
    // Without an index nothing is asked.
    assert!(middleware.can_search(&deep));
    assert!(middleware.can_search("- *"));
    let tools =
        vec![create_test_tool("a___one", "apple"), create_test_tool("a___two", "pear apple")];
    middleware.update_tool_index(&tools);
    assert!(!middleware.can_search(&deep));
    assert!(!middleware.can_search(&format!("apple {}pear", "NOT ".repeat(5000))));
    assert!(!middleware.can_search(&"NOT\tNOT\tNOT\tname:(".repeat(12)));
    assert!(!middleware.can_search("- *"));
    assert!(!middleware.can_search("apple (+ *)"));
    // In quotation marks none of this has a meaning.
    for text in [deep.as_str(), "apple - * "] {
        let quoted = format!("\"{}\"", text);
        assert!(middleware.can_search(&quoted));
        assert_eq!(middleware.search_tools(&quoted).len(), 2);
    }
}

#[test]
fn a_query_of_many_groups_is_answered() {
    let mut middleware = ToolSearchMiddleware::new(create_test_config(50, 0.0));
    let tools =
        vec![create_test_tool("a___one", "apple"), create_test_tool("a___two", "pear apple")];
    middleware.update_tool_index(&tools);
    let groups = format!("{}apple{}", "(".repeat(13), ")".repeat(13));
    assert!(middleware.can_search(&groups));
    assert_eq!(middleware.search_tools(&groups).len(), 2);
    // Without their ends they are no query, but one in quotation marks.
    let unclosed = format!("{}pear apple", "(".repeat(13));
    assert!(middleware.can_search(&unclosed));
    assert_eq!(names(&middleware.search_tools(&unclosed)), vec!["a___two"]);
    // Groups beside each other, with phrases between them.
    let beside = "(pear) 'pear' ".repeat(50);
    assert!(middleware.can_search(&beside));
    assert_eq!(names(&middleware.search_tools(&beside)), vec!["a___two"]);
    // As many as may stand in each other.
    let later = format!("{}pear{}", "pear searchable_text:(".repeat(128), ")".repeat(128));
    assert!(middleware.can_search(&later));
    assert_eq!(names(&middleware.search_tools(&later)), vec!["a___two"]);
    let later_unclosed = "pear AND (".repeat(128);
    assert!(middleware.can_search(&later_unclosed));
    assert!(middleware.search_tools(&later_unclosed).is_empty());
}

#[test]
fn a_query_with_many_negations_is_answered() {
    let mut middleware = ToolSearchMiddleware::new(create_test_config(50, 0.0));
    let tools = vec![create_test_tool("a___one", "apple"), create_test_tool("a___two", "pear")];
    middleware.update_tool_index(&tools);
    let excluded = format!("(apple OR pear) {}", "NOT pear ".repeat(700));
    assert!(middleware.can_search(&excluded));
    assert_eq!(names(&middleware.search_tools(&excluded)), vec!["a___one"]);
    let stacked = format!("apple {}pear", "NOT ".repeat(640));
    assert!(middleware.can_search(&stacked));
    assert!(middleware.search_tools(&stacked).len() <= 2);
    let both = format!("{}pear{}", "pear NOT NOT (".repeat(91), ")".repeat(91));
    assert!(middleware.can_search(&both));
    assert!(middleware.search_tools(&both).len() <= 2);
}

#[test]
fn groups_beside_each_other_can_be_searched() {
    let mut middleware = ToolSearchMiddleware::new(create_test_config(50, 0.0));
    let tools = vec![create_test_tool("a___one", "apple"), create_test_tool("a___two", "pear")];
    middleware.update_tool_index(&tools);
    let query = "(pear) ".repeat(100);
    assert!(middleware.can_search(&query));
    assert_eq!(names(&middleware.search_tools(&query)), vec!["a___two"]);
}

#[test]
fn a_higher_threshold_cuts_off_the_end_of_the_results() {
    let tools: Vec<Tool> = (1..8)
        .map(|i| create_test_tool(&format!("a___t{}", i), &"apple ".repeat(i)))
        .collect();
    let results = |threshold: f32| {
        let mut middleware = ToolSearchMiddleware::new(create_test_config(50, threshold));
        middleware.update_tool_index(&tools);
        let found = middleware.search_tools("apple");
        found.iter().map(|tool| tool.name.clone()).collect::<Vec<String>>()
    };
    let mut middleware = ToolSearchMiddleware::new(create_test_config(50, 0.0));
    middleware.update_tool_index(&tools);
    let all = results(0.0);
    assert_eq!(all.len(), 7);
    for hit in middleware.search_hits("apple") {
        let some = results(f32::from_bits(hit.score) / 10.0);
        assert!(some.len() <= all.len());
        assert_eq!(some[..], all[..some.len()]);
    }
    assert!(results(1000.0).is_empty());
}

#[test]
fn no_tool_is_given_twice() {
    let mut middleware = ToolSearchMiddleware::new(create_test_config(50, 0.0));
    let tools: Vec<Tool> =
        (0..20).map(|i| create_test_tool(&format!("a___t{}", i), "apple pear apple")).collect();
    middleware.update_tool_index(&tools);
    for query in ["apple", "apple pear", "apple OR apple OR name:t3", "*"] {
        let results = middleware.search_tools(query);
        let mut found = names(&results);
        assert_eq!(found.len(), 20);
        found.sort();
        found.dedup();
        assert_eq!(found.len(), 20);
    }
}

#[test]
fn signs_and_stars_that_are_readable_are_searched() {
    let mut middleware = ToolSearchMiddleware::new(create_test_config(50, 0.0));
    middleware.update_tool_index(&vec![create_test_tool("a___one", "apple")]);
    for text in [
        "-*", "- *a", "a- *", "a*- *", "f:- *", "f: *", "name: *", "- a *", "-+ *", "a\\- *",
        "'- *'", "\"a - * b\"", "* - a", "a - b * c", "5- *", "-5- *", "* * *", "name:* a",
    ] {
        assert!(middleware.can_search(text), "{:?}", text);
        assert!(middleware.search_tools(text).len() <= 1);
    }
}

#[test]
fn any_readable_text_is_searched() {
    let mut middleware = ToolSearchMiddleware::new(create_test_config(50, 0.0));
    middleware.update_tool_index(&vec![create_test_tool("a___one", "apple")]);
    let pieces = [
        "*", "+", "-", " ", "a", "(", ")", "\"", "'", "\\", "name:", ">", "<=", "[", "]", "^2",
        "~1", "1", "NOT ", "AND ", "OR ", "\t", "\n", "{", "}", "[a TO b]", "name:IN [a b]", ":",
        ".", "\"b\"", "\"b\"~2", "'c'", "(b)", "name:-5", "-5", "NOT\t", "- *", "+ *", "!", "`",
    ];
    let mut state: u64 = 88172645463325252;
    let mut next = |bound: usize| {
        state ^= state << 13;
        state ^= state >> 7;
        state ^= state << 17;
        (state >> 11) as usize % bound
    };
    let mut searched = 0;
    for _ in 0..4000 {
        let count = next(9) + 1;
        let text: String = (0..count).map(|_| pieces[next(pieces.len())]).collect();
        if middleware.can_search(&text) {
            assert!(middleware.search_tools(&text).len() <= 1);
            searched += 1;
        }
    }
    assert!(searched > 2000);
}
