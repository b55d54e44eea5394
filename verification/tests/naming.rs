use mcproxy::error::ProxyError;
use mcproxy::naming::{extract_server_and_name, extract_server_name, prefix_with_server};

#[test]
fn a_name_gets_its_server_before_it() {
    assert_eq!(prefix_with_server("github", "create_issue"), "github___create_issue");
    assert_eq!(prefix_with_server("", ""), "___");
}

#[test]
fn a_prefix_is_undone() {
    for server in ["github", "", "a_b", "a__b", "日本"] {
        for name in ["create_issue", "", "_x", "___", "a___b", "名"] {
            let prefixed = prefix_with_server(server, name);
            assert_eq!(extract_server_and_name(&prefixed).unwrap(), (server, name));
            assert_eq!(extract_server_name(&prefixed), server);
        }
    }
}

#[test]
fn a_prefix_is_not_undone_where_the_server_ends_in_an_underscore() {
    let prefixed = prefix_with_server("a_", "n");
    assert_eq!(extract_server_and_name(&prefixed).unwrap(), ("a", "_n"));
    let prefixed = prefix_with_server("a___b", "n");
    assert_eq!(extract_server_and_name(&prefixed).unwrap(), ("a", "b___n"));
}

#[test]
fn parting_is_undone() {
    for text in ["a___b", "___", "_______", "x____y"] {
        let (server, name) = extract_server_and_name(text).unwrap();
        assert_eq!(prefix_with_server(server, name), text);
    }
}

#[test]
fn a_name_without_a_server_is_an_error() {
    assert_eq!(
        extract_server_and_name("a__b"),
        Err(ProxyError::InvalidFormat("Invalid prefixed name format: a__b".to_string()))
    );
    assert_eq!(extract_server_name("a__b"), "unknown");
}
