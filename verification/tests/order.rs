use std::sync::Arc;

use mcproxy::json::JsonValue;
use mcproxy::model::Tool;
use mcproxy::order::{sort_tools, ToolOrder};

fn tool(name: &str, description: &str) -> Tool {
    Tool {
        name: name.to_string(),
        description: Some(description.to_string()),
        input_schema: Arc::new(JsonValue::Null),
        annotations: None,
    }
}

fn sample() -> Vec<Tool> {
    vec![
        tool("b___z", "0"),
        tool("plain", "1"),
        tool("a-b___y", "2"),
        tool("a___z", "3"),
        tool("Z___a", "4"),
        tool("a___z", "5"),
        tool("", "6"),
        tool("é___x", "7"),
        tool("a___", "8"),
    ]
}

fn described(tools: &[Tool]) -> Vec<String> {
    tools.iter().map(|tool| tool.description.clone().unwrap()).collect()
}

#[test]
fn tools_are_sorted_as_the_standard_library_does() {
    let mut expected = sample();
    expected.sort_by(|a, b| a.name.cmp(&b.name));
    assert_eq!(
        described(&sort_tools(ToolOrder::Alphabetical, sample())),
        described(&expected)
    );

    let server = |name: &str| match name.find("___") {
        Some(at) => name[..at].to_string(),
        None => "unknown".to_string(),
    };
    let mut expected = sample();
    expected.sort_by(|a, b| server(&a.name).cmp(&server(&b.name)).then(a.name.cmp(&b.name)));
    assert_eq!(
        described(&sort_tools(ToolOrder::ServerPriority, sample())),
        described(&expected)
    );
}

#[test]
fn the_servers_of_tools_come_one_after_the_other() {
    let sorted = sort_tools(ToolOrder::ServerPriority, sample());
    assert_eq!(described(&sorted), vec!["4", "8", "3", "5", "2", "0", "6", "1", "7"]);
    let sorted = sort_tools(ToolOrder::Alphabetical, sample());
    assert_eq!(described(&sorted), vec!["6", "4", "2", "8", "3", "5", "0", "1", "7"]);
}

#[test]
fn one_name_comes_before_the_other_in_one_direction() {
    for order in [ToolOrder::Alphabetical, ToolOrder::ServerPriority] {
        for a in sample() {
            for b in sample() {
                let before = order.is_before(&a.name, &b.name);
                let behind = order.is_before(&b.name, &a.name);
                assert_eq!(!before && !behind, a.name == b.name);
                assert!(!(before && behind));
            }
        }
    }
}
