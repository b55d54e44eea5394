//! The HTTP server that the proxy is: where it listens, which origins it
//! answers, and how it says that it is well.

use vstd::prelude::*;
use vstd::string::*;

use crate::config::{text_or_none, HttpServerConfig, HttpServerView};
use crate::json::{members_view, object_of, text_of, JsonValue, JsonView};
use crate::text::{
    all_white_space, chars_of, decimal, decimal_text, digit_char, is_digit, joined,
    law_decimal_is_injective, law_numbers_are_digits, lemma_trimmed, number_of, occurs_at,
    occurs_in, parse_number, parsed_number, same_text, texts, trim, trimmed, NumberError,
};

verus! {

/// Where to listen.
#[derive(Clone, Debug, PartialEq, Eq)]
pub enum Listen {
    /// On a Unix socket, with the file mode that it is to have.
    UnixSocket { path: String, mode: Option<String> },
    /// On a TCP address.
    Tcp { address: String },
}

/// Where to listen, with the texts as characters.
pub enum ListenView {
    UnixSocket { path: Seq<char>, mode: Option<Seq<char>> },
    Tcp { address: Seq<char> },
}

impl View for Listen {
    type V = ListenView;

    open spec fn view(&self) -> ListenView {
        match self {
            Listen::UnixSocket { path, mode } => ListenView::UnixSocket {
                path: path@,
                mode: text_or_none(*mode),
            },
            Listen::Tcp { address } => ListenView::Tcp { address: address@ },
        }
    }
}

/// The address of host and port: `localhost` stands for the loopback address.
pub open spec fn bind_text(host: Seq<char>, port: u16) -> Seq<char> {
    (if host == "localhost"@ {
        "127.0.0.1"@
    } else {
        host
    }) + ":"@ + decimal(port as nat)
}

/// A Unix socket, where one is given, is listened on in place of host and port.
pub open spec fn listened_on(http: HttpServerView) -> ListenView {
    match http.unix_socket {
        Some(path) => ListenView::UnixSocket { path, mode: http.unix_socket_mode },
        None => ListenView::Tcp { address: bind_text(http.host, http.port) },
    }
}

/// The address to bind to, as a text.
pub fn bind_address(http_config: &HttpServerConfig) -> (address: String)
    ensures
        address@ == bind_text(http_config@.host, http_config@.port),
{
    let host: &str = if same_text(http_config.host.as_str(), "localhost") {
        "127.0.0.1"
    } else {
        http_config.host.as_str()
    };
    joined(host, ":").concat(decimal_text(http_config.port as u64).as_str())
}

/// The address to bind to, from what reading its text gave: the address, or why
/// it is none.
pub fn parse_bind_address<A>(http_config: &HttpServerConfig, parsed: Result<A, String>) -> (res:
    Result<A, String>)
    ensures
        match (parsed, res) {
            (Ok(address), Ok(bound)) => bound == address,
            (Err(reason), Err(text)) => text@ == "Invalid bind address '"@ + bind_text(
                http_config@.host,
                http_config@.port,
            ) + "': "@ + reason@,
            _ => false,
        },
{
    match parsed {
        Ok(address) => Ok(address),
        Err(reason) => Err(
            joined("Invalid bind address '", bind_address(http_config).as_str()).concat(
                "': ",
            ).concat(reason.as_str()),
        ),
    }
}

/// Where the proxy is to listen.
pub fn listen_on(http_config: &HttpServerConfig) -> (listen: Listen)
    ensures
        listen@ == listened_on(http_config@),
        http_config.unix_socket matches Some(path) ==> listen matches Listen::UnixSocket {
            path: socket,
            mode,
        } && socket@ == path@ && text_or_none(mode) == text_or_none(http_config.unix_socket_mode),
        http_config.unix_socket is None ==> listen is Tcp,
{
    match &http_config.unix_socket {
        Some(path) => Listen::UnixSocket {
            path: path.clone(),
            mode: match &http_config.unix_socket_mode {
                Some(mode) => Some(mode.clone()),
                None => None,
            },
        },
        None => Listen::Tcp { address: bind_address(http_config) },
    }
}

/// The digits of a file mode: without the white space around them and without
/// the sign of an octal number before them.
pub open spec fn mode_digits(text: Seq<char>) -> Seq<char> {
    let mode = trimmed(text);
    if mode.len() >= 2 && mode[0] == '0' && (mode[1] == 'o' || mode[1] == 'O') {
        mode.skip(2)
    } else {
        mode
    }
}

/// The file mode that a text stands for, or what is said where it stands for none.
pub open spec fn octal_mode(text: Seq<char>) -> Result<nat, Seq<char>> {
    match parsed_number(mode_digits(text), 8, u32::MAX as nat) {
        Ok(number) => Ok(number),
        Err(error) => Err(
            "Invalid unix socket mode '"@ + trimmed(text) + "': "@ + error.words(),
        ),
    }
}

/// The file mode that a text like `0777` or `0o660` stands for.
pub fn parse_octal_mode(s: &str) -> (res: Result<u32, String>)
    ensures
        match (parsed_number(mode_digits(s@), 8, u32::MAX as nat), res) {
            (Ok(number), Ok(mode)) => mode == number,
            (Err(error), Err(text)) => text@ == "Invalid unix socket mode '"@ + trimmed(s@)
                + "': "@ + error.words(),
            _ => false,
        },
        match (octal_mode(s@), res) {
            (Ok(number), Ok(mode)) => mode == number,
            (Err(expected), Err(text)) => text@ == expected,
            _ => false,
        },
{
    let mode: String = trim(s);
    let chars: Vec<char> = chars_of(mode.as_str());
    let digits: String = if chars.len() >= 2 && chars[0] == '0' && (chars[1] == 'o' || chars[1]
        == 'O') {
        let digits: String = mode.as_str().substring_char(2, chars.len()).to_string();
        assert(digits@ =~= mode@.skip(2));
        digits
    } else {
        mode.clone()
    };
    match parse_number(digits.as_str(), 8, 0xffff_ffff) {
        Ok(number) => Ok(number as u32),
        Err(error) => Err(
            joined("Invalid unix socket mode '", mode.as_str()).concat("': ").concat(
                error.message(),
            ),
        ),
    }
}

/// A number in octal digits, without leading zeros.
pub open spec fn octal(number: nat) -> Seq<char>
    decreases number,
{
    if number < 8 {
        seq![digit_char(number)]
    } else {
        octal(number / 8).push(digit_char(number % 8))
    }
}

/// Each character of a text is the given one.
pub open spec fn all_are(text: Seq<char>, c: char) -> bool {
    forall|i: int| 0 <= i < text.len() ==> #[trigger] text[i] == c
}

/// Octal digits are digits, and stand for the number, also with zeros before them.
proof fn lemma_octal(number: nat, zeros: Seq<char>, max: nat)
    requires
        number <= max,
        all_are(zeros, '0'),
    ensures
        octal(number).len() > 0,
        forall|i: int|
            0 <= i < octal(number).len() ==> 48 <= #[trigger] octal(number)[i] as u32 <= 55,
        number_of(zeros + octal(number), 8, max) == Ok::<nat, NumberError>(number),
    decreases number,
{
    let digits = zeros + octal(number);
    if number < 8 {
        lemma_zeros(zeros, max);
        assert(digits.drop_last() =~= zeros);
    } else {
        lemma_octal(number / 8, zeros, max);
        assert(digits.drop_last() =~= zeros + octal(number / 8));
        assert(digits.last() == digit_char(number % 8));
    }
}

/// Zeros stand for zero.
proof fn lemma_zeros(zeros: Seq<char>, max: nat)
    requires
        all_are(zeros, '0'),
    ensures
        number_of(zeros, 8, max) == Ok::<nat, NumberError>(0),
    decreases zeros.len(),
{
    if zeros.len() > 0 {
        assert(all_are(zeros.drop_last(), '0'));
        lemma_zeros(zeros.drop_last(), max);
        assert(zeros[zeros.len() - 1] == '0');
    }
}

/// A file mode in octal digits is read back, with zeros before them or without, with
/// the sign of an octal number before those or without, and with white space around
/// it or without.
#[verifier::rlimit(40)]
pub proof fn law_mode_is_read_back(
    number: nat,
    before: Seq<char>,
    sign: Seq<char>,
    zeros: Seq<char>,
    after: Seq<char>,
)
    requires
        number <= u32::MAX,
        all_white_space(before),
        sign == Seq::<char>::empty() || sign == seq!['0', 'o'] || sign == seq!['0', 'O'],
        all_are(zeros, '0'),
        all_white_space(after),
    ensures
        parsed_number(
            mode_digits(before + sign + zeros + octal(number) + after),
            8,
            u32::MAX as nat,
        ) == Ok::<nat, NumberError>(number),
{
    let text = before + sign + zeros + octal(number) + after;
    let digits = zeros + octal(number);
    let mode = sign + digits;
    lemma_octal(number, zeros, u32::MAX as nat);
    assert forall|i: int| 0 <= i < digits.len() implies 48 <= #[trigger] digits[i] as u32 <= 55 by {
        if i < zeros.len() {
            assert(digits[i] == zeros[i]);
        } else {
            assert(digits[i] == octal(number)[i - zeros.len()]);
        }
    }
    assert(digits[0] as u32 <= 55);
    if sign.len() == 0 {
        assert(mode =~= digits);
        assert(mode[0] == digits[0]);
        if digits.len() > 1 {
            assert(digits[1] as u32 <= 55);
        }
    } else {
        assert(mode.skip(2) =~= digits);
    }
    assert(mode[mode.len() - 1] == digits[digits.len() - 1]);
    assert(text =~= before + mode + after);
    lemma_trimmed(before, mode, after);
}

/// The origins whose pages get an answer.
#[derive(Clone, Debug, PartialEq, Eq)]
pub enum AllowedOrigins {
    Nobody,
    Anybody,
    /// One origin.
    Exactly(String),
    /// Each of several origins.
    OneOf(Vec<String>),
}

/// The origins whose pages get an answer, with the texts as characters.
pub enum AllowedOriginsView {
    Nobody,
    Anybody,
    Exactly(Seq<char>),
    OneOf(Seq<Seq<char>>),
}

impl View for AllowedOrigins {
    type V = AllowedOriginsView;

    open spec fn view(&self) -> AllowedOriginsView {
        match self {
            AllowedOrigins::Nobody => AllowedOriginsView::Nobody,
            AllowedOrigins::Anybody => AllowedOriginsView::Anybody,
            AllowedOrigins::Exactly(origin) => AllowedOriginsView::Exactly(origin@),
            AllowedOrigins::OneOf(origins) => AllowedOriginsView::OneOf(texts(origins@)),
        }
    }
}

/// What requests from pages of other origins are answered.
#[derive(Clone, Debug, PartialEq, Eq)]
pub struct CorsPolicy {
    /// The origins whose pages get an answer.
    pub origins: AllowedOrigins,
    /// The methods that such a page may use.
    pub methods: Vec<String>,
    /// The headers that such a page may send.
    pub headers: Vec<String>,
}

/// A text that can stand in a header: no ASCII control character but the tab.
pub open spec fn header_text(text: Seq<char>) -> bool {
    forall|i: int| 0 <= i < text.len() ==> #[trigger] header_char(text[i])
}

/// A character that can stand in a header.
pub open spec fn header_char(c: char) -> bool {
    (c as u32 >= 32 && c as u32 != 127) || c as u32 == 9
}

/// Whether a text can be the value of a header.
///
/// Calls `<axum::http::HeaderValue as FromStr>::from_str`. It accepts a text
/// whose UTF-8 bytes are each at least 32 and not 127, or 9. A character of one
/// byte is that byte, and all bytes of any other character are above 127.
#[verifier::external_body]
fn is_header_value(text: &str) -> (valid: bool)
    ensures
        valid == header_text(text@),
{
    text.parse::<axum::http::HeaderValue>().is_ok()
}

/// The origins of a list that can be the value of a header.
pub open spec fn usable_origins(origins: Seq<Seq<char>>) -> Seq<Seq<char>> {
    origins.filter(|origin: Seq<char>| header_text(origin))
}

/// The origins that a list allows: with a `*` in it all, else those in it that
/// can be the value of a header.
pub open spec fn allowed_by(origins: Seq<Seq<char>>) -> AllowedOriginsView {
    let usable = usable_origins(origins);
    if origins.contains("*"@) {
        AllowedOriginsView::Anybody
    } else if usable.len() == 0 {
        AllowedOriginsView::Nobody
    } else if usable.len() == 1 {
        AllowedOriginsView::Exactly(usable[0])
    } else {
        AllowedOriginsView::OneOf(usable)
    }
}

/// The origins that a list allows.
pub fn allowed_origins(origins: &Vec<String>) -> (allowed: AllowedOrigins)
    ensures
        allowed@ == allowed_by(texts(origins@)),
{
    let ghost listed = texts(origins@);
    let ghost usable_origin = |origin: Seq<char>| header_text(origin);
    let mut usable: Vec<String> = Vec::new();
    let mut i: usize = 0;
    assert(listed.take(0) =~= Seq::<Seq<char>>::empty());
    proof {
        reveal(Seq::filter);
    }
    assert(texts(usable@) =~= usable_origins(listed.take(0)));
    while i < origins.len()
        invariant
            i <= origins.len(),
            listed == texts(origins@),
            usable_origin == (|origin: Seq<char>| header_text(origin)),
            forall|j: int| 0 <= j < i ==> listed[j] != "*"@,
            texts(usable@) == usable_origins(listed.take(i as int)),
        decreases origins.len() - i,
    {
        assert(listed[i as int] == origins@[i as int]@);
        if same_text(origins[i].as_str(), "*") {
            return AllowedOrigins::Anybody;
        }
        proof {
            reveal(Seq::filter);
            assert(listed.take(i + 1).drop_last() =~= listed.take(i as int));
        }
        let ghost before = texts(usable@);
        if is_header_value(origins[i].as_str()) {
            usable.push(origins[i].clone());
            assert(texts(usable@) =~= before.push(listed[i as int]));
        }
        i = i + 1;
    }
    assert(listed.take(i as int) =~= listed);
    if usable.len() == 0 {
        AllowedOrigins::Nobody
    } else if usable.len() == 1 {
        assert(texts(usable@)[0] == usable@[0]@);
        AllowedOrigins::Exactly(usable[0].clone())
    } else {
        AllowedOrigins::OneOf(usable)
    }
}

/// Each origin of a list that can be the value of a header is allowed, and no
/// other, unless all are.
pub proof fn law_usable_origins_are_allowed(origins: Seq<Seq<char>>, origin: Seq<char>)
    ensures
        usable_origins(origins).contains(origin) <==> origins.contains(origin) && header_text(
            origin,
        ),
{
    let usable = |origin: Seq<char>| header_text(origin);
    let allowed = usable_origins(origins);
    if allowed.contains(origin) {
        let i = choose|i: int| 0 <= i < allowed.len() && allowed[i] == origin;
        origins.lemma_filter_pred(usable, i);
        origins.lemma_filter_contains_rev(usable, origin);
    }
    if origins.contains(origin) && header_text(origin) {
        let i = choose|i: int| 0 <= i < origins.len() && origins[i] == origin;
        assert(usable(origins[i]));
        origins.lemma_filter_contains(usable, i);
    }
}

/// What requests from pages of other origins are answered, with the texts as characters.
pub struct CorsView {
    pub origins: AllowedOriginsView,
    pub methods: Seq<Seq<char>>,
    pub headers: Seq<Seq<char>>,
}

/// What requests from pages of other origins are answered, where they are answered at
/// all.
pub open spec fn cors_of(http: HttpServerView) -> Option<CorsView> {
    if http.cors_enabled {
        Some(
            CorsView {
                origins: allowed_by(http.cors_origins),
                methods: seq!["GET"@, "POST"@, "DELETE"@, "OPTIONS"@],
                headers: seq!["content-type"@, "authorization"@, "accept"@],
            },
        )
    } else {
        None
    }
}

/// What requests from pages of other origins are answered, where they are
/// answered at all.
pub fn cors_policy(http_config: &HttpServerConfig) -> (policy: Option<CorsPolicy>)
    ensures
        policy is Some <==> http_config@.cors_enabled,
        policy matches Some(cors) ==> {
            &&& cors.origins@ == allowed_by(http_config@.cors_origins)
            &&& texts(cors.methods@) == seq!["GET"@, "POST"@, "DELETE"@, "OPTIONS"@]
            &&& texts(cors.headers@) == seq!["content-type"@, "authorization"@, "accept"@]
        },
        match (cors_of(http_config@), policy) {
            (Some(expected), Some(cors)) => cors.origins@ == expected.origins && texts(
                cors.methods@,
            ) == expected.methods && texts(cors.headers@) == expected.headers,
            (None, None) => true,
            _ => false,
        },
{
    if !http_config.cors_enabled {
        return None;
    }
    let policy = CorsPolicy {
        origins: allowed_origins(&http_config.cors_origins),
        methods: vec![
            "GET".to_string(),
            "POST".to_string(),
            "DELETE".to_string(),
            "OPTIONS".to_string(),
        ],
        headers: vec![
            "content-type".to_string(),
            "authorization".to_string(),
            "accept".to_string(),
        ],
    };
    assert(texts(policy.methods@) =~= seq!["GET"@, "POST"@, "DELETE"@, "OPTIONS"@]);
    assert(texts(policy.headers@) =~= seq!["content-type"@, "authorization"@, "accept"@]);
    Some(policy)
}

/// What a question after the health of the proxy is answered.
pub open spec fn healthy() -> JsonView {
    JsonView::Object(
        seq![
            ("status"@, JsonView::Text("healthy"@)),
            ("service"@, JsonView::Text("mcproxy"@)),
        ],
    )
}

/// What a question after the health of the proxy is answered.
pub fn health_check() -> (report: JsonValue)
    ensures
        report.view() == healthy(),
{
    let members: Vec<(String, JsonValue)> = vec![
        ("status".to_string(), text_of("healthy")),
        ("service".to_string(), text_of("mcproxy")),
    ];
    assert(members_view(members@) =~= healthy()->Object_0);
    object_of(members)
}

/// Wherever a Unix socket is configured the proxy listens on it, with the mode that is
/// configured or with none, whatever the host and the port are. It listens on TCP
/// where no Unix socket is configured, and only there.
pub proof fn law_unix_socket_is_listened_on(http: HttpServerView)
    ensures
        http.unix_socket matches Some(path) ==> listened_on(http) matches ListenView::UnixSocket {
            path: socket,
            mode,
        } && socket == path && mode == http.unix_socket_mode,
        listened_on(http) is Tcp <==> http.unix_socket is None,
{
}

/// The TCP address that the proxy listens on ends with a colon and the port, and
/// starts with the host, or with the loopback address for `localhost`.
pub proof fn law_tcp_address(http: HttpServerView)
    requires
        http.unix_socket is None,
    ensures
        listened_on(http) matches ListenView::Tcp { address } && {
            let host = address.take(address.len() - decimal(http.port as nat).len() - 1);
            &&& address.len() > decimal(http.port as nat).len()
            &&& decimal(http.port as nat).is_suffix_of(address)
            &&& address[host.len() as int] == ':'
            &&& http.host != "localhost"@ ==> host == http.host
            &&& http.host == "localhost"@ ==> host == "127.0.0.1"@
        },
{
    reveal_strlit(":");
    let host = if http.host == "localhost"@ {
        "127.0.0.1"@
    } else {
        http.host
    };
    let digits = decimal(http.port as nat);
    let address = bind_text(http.host, http.port);
    assert(address.len() == host.len() + 1 + digits.len());
    assert(address.take(address.len() - digits.len() - 1) =~= host);
    assert(address.skip(address.len() - digits.len()) =~= digits);
}

/// No two ports of a host have the same address.
pub proof fn law_ports_have_addresses(host: Seq<char>, a: u16, b: u16)
    requires
        bind_text(host, a) == bind_text(host, b),
    ensures
        a == b,
{
    reveal_strlit(":");
    let first = decimal(a as nat);
    let second = decimal(b as nat);
    let text = bind_text(host, a);
    let start = text.len() - first.len();
    assert(text.len() - second.len() == start);
    assert(text.skip(start) =~= first);
    assert(text.skip(start) =~= second);
    law_decimal_is_injective(a as nat, b as nat);
}

/// A file mode that is read has octal digits only, with one plus sign before them or
/// none; without digits there is none.
pub proof fn law_modes_are_octal(text: Seq<char>)
    ensures
        parsed_number(mode_digits(text), 8, u32::MAX as nat) is Ok ==> {
            let digits = mode_digits(text);
            &&& digits.len() > 0
            &&& forall|i: int|
                0 <= i < digits.len() ==> is_digit(#[trigger] digits[i], 8) || (i == 0 && digits[i]
                    == '+' && digits.len() > 1)
        },
        mode_digits(text).is_suffix_of(trimmed(text)),
        trimmed(text).len() == 0 ==> parsed_number(mode_digits(text), 8, u32::MAX as nat) is Err,
{
    law_numbers_are_digits(mode_digits(text), 8, u32::MAX as nat);
    let mode = trimmed(text);
    let digits = mode_digits(text);
    assert(mode.skip(mode.len() - digits.len()) =~= digits);
}

/// Pages of an origin get an answer.
pub open spec fn allows(allowed: AllowedOriginsView, origin: Seq<char>) -> bool {
    match allowed {
        AllowedOriginsView::Nobody => false,
        AllowedOriginsView::Anybody => true,
        AllowedOriginsView::Exactly(one) => origin == one,
        AllowedOriginsView::OneOf(origins) => origins.contains(origin),
    }
}

/// Pages of an origin get an answer exactly where the list has a `*` in it, or the
/// origin itself and that can be the value of a header.
pub proof fn law_listed_origins_are_allowed(origins: Seq<Seq<char>>, origin: Seq<char>)
    ensures
        allows(allowed_by(origins), origin) <==> origins.contains("*"@) || (origins.contains(origin)
            && header_text(origin)),
        origins.contains("*"@) <==> allowed_by(origins) is Anybody,
{
    law_usable_origins_are_allowed(origins, origin);
    let usable = usable_origins(origins);
    if usable.len() == 1 {
        assert(usable.contains(usable[0]));
        if usable.contains(origin) {
            let i = choose|i: int| 0 <= i < usable.len() && usable[i] == origin;
            assert(i == 0);
        }
    }
}

/// A file mode is read as the octal number that it is. What is none is told with why.
pub proof fn law_modes_are_read(text: Seq<char>)
    ensures
        match parsed_number(mode_digits(text), 8, u32::MAX as nat) {
            Ok(number) => octal_mode(text) == Ok::<nat, Seq<char>>(number),
            Err(error) => octal_mode(text) matches Err(told) && occurs_in(told, trimmed(text))
                && error.words().is_suffix_of(told),
        },
{
    if let Err(error) = parsed_number(mode_digits(text), 8, u32::MAX as nat) {
        let start = "Invalid unix socket mode '"@;
        let mode = trimmed(text);
        let told = start + mode + "': "@ + error.words();
        let at = start.len() as int;
        assert(told.subrange(at, at + mode.len()) =~= mode);
        assert(occurs_at(told, mode, at));
        assert(told.skip(told.len() - error.words().len()) =~= error.words());
    }
}

/// Requests of other origins are answered where that is switched on, and only there: with
/// the methods that the protocol uses, to the origins that are configured.
pub proof fn law_other_origins_are_answered(http: HttpServerView, origin: Seq<char>)
    ensures
        cors_of(http) is Some <==> http.cors_enabled,
        cors_of(http) matches Some(cors) ==> {
            &&& allows(cors.origins, origin) <==> http.cors_origins.contains("*"@) || (
            http.cors_origins.contains(origin) && header_text(origin))
            &&& cors.methods.contains("GET"@) && cors.methods.contains("POST"@)
            &&& cors.methods.contains("DELETE"@) && cors.methods.contains("OPTIONS"@)
            &&& cors.headers.contains("content-type"@) && cors.headers.contains("authorization"@)
            &&& cors.headers.contains("accept"@)
        },
{
    law_listed_origins_are_allowed(http.cors_origins, origin);
    if let Some(cors) = cors_of(http) {
        assert(cors.methods[0] == "GET"@ && cors.methods[1] == "POST"@);
        assert(cors.methods[2] == "DELETE"@ && cors.methods[3] == "OPTIONS"@);
        assert(cors.headers[0] == "content-type"@ && cors.headers[1] == "authorization"@);
        assert(cors.headers[2] == "accept"@);
    }
}

} // verus!
