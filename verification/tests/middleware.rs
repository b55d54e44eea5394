use mcproxy::config::MiddlewareSpec;
use mcproxy::error::ProxyError;
use mcproxy::json::JsonValue;
use mcproxy::middleware::{middleware_kind, MiddlewareKind};

fn spec(middleware_type: &str, enabled: bool) -> MiddlewareSpec {
    MiddlewareSpec {
        middleware_type: middleware_type.to_string(),
        enabled,
        config: JsonValue::Null,
    }
}

#[test]
fn a_word_stands_for_a_kind_of_middleware() {
    assert_eq!(
        middleware_kind(&spec("description_enricher", true)),
        Ok(Some(MiddlewareKind::DescriptionEnricher))
    );
    assert_eq!(middleware_kind(&spec("tool_search", true)), Ok(Some(MiddlewareKind::ToolSearch)));
}

#[test]
fn an_unknown_kind_of_middleware_is_an_error() {
    for word in ["", "tool_filter", "Tool_Search"] {
        assert_eq!(
            middleware_kind(&spec(word, true)),
            Err(ProxyError::Config(format!("Unknown proxy middleware type: {}", word)))
        );
    }
}

#[test]
fn middleware_that_is_off_is_not_used() {
    for word in ["description_enricher", "tool_search", "tool_filter"] {
        assert_eq!(middleware_kind(&spec(word, false)), Ok(None));
    }
}
