use mcproxy::config::HttpServerConfig;
use mcproxy::http_server::{
    allowed_origins, bind_address, cors_policy, health_check, listen_on, parse_bind_address,
    parse_octal_mode, AllowedOrigins, Listen,
};

#[test]
fn test_parse_octal_mode() {
    assert_eq!(parse_octal_mode("0777").unwrap(), 0o777);
    assert_eq!(parse_octal_mode("0o777").unwrap(), 0o777);
    assert_eq!(parse_octal_mode("777").unwrap(), 0o777);
    assert_eq!(parse_octal_mode("0660").unwrap(), 0o660);
    assert_eq!(parse_octal_mode("0o660").unwrap(), 0o660);
    assert_eq!(parse_octal_mode("  0777  ").unwrap(), 0o777);
    assert!(parse_octal_mode("0999").is_err());
    assert!(parse_octal_mode("abc").is_err());
}

fn http_config() -> HttpServerConfig {
    HttpServerConfig::default()
}

fn strings(list: &[&str]) -> Vec<String> {
    list.iter().map(|item| item.to_string()).collect()
}

#[test]
fn a_wrong_mode_is_an_error_that_says_why() {
    assert_eq!(
        parse_octal_mode(" 0999 ").unwrap_err(),
        "Invalid unix socket mode '0999': invalid digit found in string"
    );
    assert_eq!(
        parse_octal_mode("").unwrap_err(),
        "Invalid unix socket mode '': cannot parse integer from empty string"
    );
    assert_eq!(
        parse_octal_mode("0o").unwrap_err(),
        "Invalid unix socket mode '0o': cannot parse integer from empty string"
    );
    assert_eq!(
        parse_octal_mode("0O40000000000").unwrap_err(),
        "Invalid unix socket mode '0O40000000000': number too large to fit in target type"
    );
    assert_eq!(parse_octal_mode("37777777777").unwrap(), u32::MAX);
    assert_eq!(parse_octal_mode("0O17").unwrap(), 15);
    assert_eq!(parse_octal_mode("+17").unwrap(), 15);
}

#[test]
fn localhost_is_bound_to_the_loopback_address() {
    assert_eq!(bind_address(&http_config()), "127.0.0.1:8080");
    let other = HttpServerConfig { host: "0.0.0.0".to_string(), port: 9000, ..http_config() };
    assert_eq!(bind_address(&other), "0.0.0.0:9000");
    let parsed = bind_address(&other).parse().map_err(|e: core::net::AddrParseError| e.to_string());
    let address: core::net::SocketAddr = parse_bind_address(&other, parsed).unwrap();
    assert_eq!(address.port(), 9000);
}

#[test]
fn a_wrong_bind_address_is_an_error_that_says_why() {
    let wrong = HttpServerConfig { host: "no host".to_string(), port: 0, ..http_config() };
    let parsed: Result<u8, String> = Err("invalid socket address syntax".to_string());
    assert_eq!(
        parse_bind_address(&wrong, parsed),
        Err("Invalid bind address 'no host:0': invalid socket address syntax".to_string())
    );
}

#[test]
fn a_unix_socket_is_listened_on_in_place_of_host_and_port() {
    assert_eq!(
        listen_on(&http_config()),
        Listen::Tcp { address: "127.0.0.1:8080".to_string() }
    );
    let socket = HttpServerConfig {
        unix_socket: Some("/var/run/mcproxy.sock".to_string()),
        unix_socket_mode: Some("0660".to_string()),
        ..http_config()
    };
    assert_eq!(
        listen_on(&socket),
        Listen::UnixSocket {
            path: "/var/run/mcproxy.sock".to_string(),
            mode: Some("0660".to_string()),
        }
    );
}

#[test]
fn a_star_allows_all_origins() {
    let policy = cors_policy(&http_config()).unwrap();
    assert_eq!(policy.origins, AllowedOrigins::Anybody);
    assert_eq!(policy.methods, strings(&["GET", "POST", "DELETE", "OPTIONS"]));
    assert_eq!(policy.headers, strings(&["content-type", "authorization", "accept"]));
    assert_eq!(
        allowed_origins(&strings(&["https://a.example", "*"])),
        AllowedOrigins::Anybody
    );
}

#[test]
fn a_list_allows_each_origin_that_can_be_a_header() {
    assert_eq!(
        allowed_origins(&strings(&["https://a.example", "bad\norigin", "https://b.example"])),
        AllowedOrigins::OneOf(strings(&["https://a.example", "https://b.example"]))
    );
    assert_eq!(
        allowed_origins(&strings(&["https://a.example", "bad\u{7f}"])),
        AllowedOrigins::Exactly("https://a.example".to_string())
    );
    assert_eq!(allowed_origins(&strings(&["\r"])), AllowedOrigins::Nobody);
    assert_eq!(allowed_origins(&Vec::new()), AllowedOrigins::Nobody);
}

#[test]
fn what_can_be_a_header_is_told_by_its_characters() {
    for code in (0..0x300u32).chain([0xd7ff, 0xe000, 0xffff, 0x10000, 0x10ffff]) {
        let origin = char::from_u32(code).unwrap().to_string();
        if origin == "*" {
            continue;
        }
        let expected = if (code >= 32 && code != 127) || code == 9 {
            AllowedOrigins::Exactly(origin.clone())
        } else {
            AllowedOrigins::Nobody
        };
        assert_eq!(allowed_origins(&vec![origin]), expected, "{:x}", code);
    }
}

#[test]
fn without_cors_there_is_no_policy() {
    let closed = HttpServerConfig { cors_enabled: false, ..http_config() };
    assert_eq!(cors_policy(&closed), None);
}

#[test]
fn the_proxy_says_that_it_is_well() {
    let report = health_check();
    assert_eq!(report.get("status").and_then(|value| value.as_str()), Some("healthy"));
    assert_eq!(report.get("service").and_then(|value| value.as_str()), Some("mcproxy"));
    assert_eq!(report.get("version"), None);
}

#[test]
fn a_mode_in_octal_digits_is_read_back() {
    for number in [0u32, 1, 7, 8, 0o660, 0o777, 0o7777, u32::MAX] {
        for sign in ["", "0o", "0O"] {
            for zeros in ["", "0", "000"] {
                for space in ["", " ", "\t\n", "\u{3000}"] {
                    let text = format!("{}{}{}{:o}{}", space, sign, zeros, number, space);
                    assert_eq!(parse_octal_mode(&text), Ok(number));
                }
            }
        }
    }
}
