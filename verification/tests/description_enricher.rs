use std::sync::Arc;

use mcproxy::description_enricher::{DescriptionEnricherFactory, DescriptionEnricherMiddleware};
use mcproxy::json::JsonValue;
use mcproxy::model::{Prompt, Resource, Tool};

fn make_tool(name: &str, description: Option<&str>) -> Tool {
    Tool {
        name: name.to_string(),
        description: description.map(|d| d.to_string()),
        input_schema: Arc::new(JsonValue::Object(Vec::new())),
        annotations: None,
    }
}

fn text(value: &str) -> JsonValue {
    JsonValue::Text(value.to_string())
}

#[test]
fn test_default_suffix() {
    let mw = DescriptionEnricherMiddleware::new(" (via mcproxy)".into(), Vec::new());
    let mut tools = vec![make_tool("t1", Some("original"))];
    mw.on_list_tools(&mut tools);
    assert_eq!(tools[0].description.as_ref().unwrap(), "original (via mcproxy)");
}

#[test]
fn test_override_replaces_description() {
    let overrides = vec![("server___tool".into(), "Custom description for LLM".into())];
    let mw = DescriptionEnricherMiddleware::new(" (via mcproxy)".into(), overrides);

    let mut tools = vec![
        make_tool("server___tool", Some("boring upstream desc")),
        make_tool("other___tool", Some("keep this")),
    ];
    mw.on_list_tools(&mut tools);

    assert_eq!(tools[0].description.as_ref().unwrap(), "Custom description for LLM");
    assert_eq!(tools[1].description.as_ref().unwrap(), "keep this (via mcproxy)");
}

#[test]
fn test_empty_suffix_no_change() {
    let mw = DescriptionEnricherMiddleware::new("".into(), Vec::new());
    let mut tools = vec![make_tool("t1", Some("original"))];
    mw.on_list_tools(&mut tools);
    assert_eq!(tools[0].description.as_ref().unwrap(), "original");
}

#[test]
fn test_factory_from_config() {
    let config = JsonValue::Object(vec![
        ("suffix".to_string(), text(" [proxy]")),
        (
            "overrides".to_string(),
            JsonValue::Object(vec![(
                "fetch___fetch".to_string(),
                text("Fetch a URL and return its contents."),
            )]),
        ),
    ]);
    let factory = DescriptionEnricherFactory;
    let mw = factory.create(&config).unwrap();

    let mut tools = vec![
        make_tool("fetch___fetch", Some("upstream")),
        make_tool("other___x", Some("upstream")),
    ];
    mw.on_list_tools(&mut tools);

    assert_eq!(tools[0].description.as_ref().unwrap(), "Fetch a URL and return its contents.");
    assert_eq!(tools[1].description.as_ref().unwrap(), "upstream [proxy]");
}

#[test]
fn a_missing_description_stays_missing_but_for_an_override() {
    let overrides = vec![("a".to_string(), "first".to_string()), ("a".into(), "last".into())];
    let mw = DescriptionEnricherMiddleware::new("!".into(), overrides);
    let mut tools = vec![make_tool("a", None), make_tool("b", None)];
    mw.on_list_tools(&mut tools);
    assert_eq!(tools[0].description.as_deref(), Some("last"));
    assert_eq!(tools[1].description, None);
    assert_eq!(tools[0].name, "a");
}

#[test]
fn prompts_and_resources_are_enriched_too() {
    let overrides = vec![("file:///x".to_string(), "replaced".to_string())];
    let mw = DescriptionEnricherMiddleware::new(" +".into(), overrides);
    let annotations = Some(Arc::new(text("kept")));
    let mut prompts = vec![Prompt {
        name: "p".to_string(),
        description: Some("a prompt".to_string()),
        arguments: annotations.clone(),
    }];
    mw.on_list_prompts(&mut prompts);
    assert_eq!(prompts[0].description.as_deref(), Some("a prompt +"));
    assert_eq!(prompts[0].arguments, annotations);
    let resource = |uri: &str| Resource {
        uri: uri.to_string(),
        name: "file:///x".to_string(),
        description: Some("a resource".to_string()),
        mime_type: Some("text/plain".to_string()),
        size: Some(3),
        annotations: annotations.clone(),
    };
    let mut resources = vec![resource("file:///x"), resource("file:///y")];
    mw.on_list_resources(&mut resources);
    assert_eq!(resources[0].description.as_deref(), Some("replaced"));
    assert_eq!(resources[1].description.as_deref(), Some("a resource +"));
    assert_eq!(resources[1].mime_type.as_deref(), Some("text/plain"));
    assert_eq!(resources[1].size, Some(3));
}

#[test]
fn a_configuration_can_be_empty_or_odd() {
    let factory = DescriptionEnricherFactory;
    assert_eq!(factory.middleware_type(), "description_enricher");
    let mut tools = vec![make_tool("t", Some("d"))];
    factory.create(&JsonValue::Null).unwrap().on_list_tools(&mut tools);
    assert_eq!(tools[0].description.as_deref(), Some("d (via mcproxy)"));

    let odd = JsonValue::Object(vec![
        ("suffix".to_string(), JsonValue::Bool(true)),
        (
            "overrides".to_string(),
            JsonValue::Object(vec![("t".to_string(), JsonValue::Number("1".to_string()))]),
        ),
    ]);
    let mut tools = vec![make_tool("t", Some("d")), make_tool("u", Some("d"))];
    factory.create(&odd).unwrap().on_list_tools(&mut tools);
    assert_eq!(tools[0].description.as_deref(), Some(""));
    assert_eq!(tools[1].description.as_deref(), Some("d (via mcproxy)"));
}
