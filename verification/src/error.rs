//! What can go wrong in the proxy.

use vstd::prelude::*;

verus! {

/// An error of the proxy.
#[derive(Clone, Debug, PartialEq, Eq)]
pub enum ProxyError {
    /// The configuration cannot be used.
    Config(String),
    /// The configuration is not the JSON that is asked for.
    Json(String),
    /// A name is not of the form that is asked for.
    InvalidFormat(String),
    /// No server of this name is connected.
    ServerNotFound(String),
    /// The process of a server could not be started.
    ProcessSpawn(String),
    /// A server could not be connected to.
    Connection { server: String, reason: String },
}

/// An error of the proxy, with its texts as characters.
pub enum ProxyErrorView {
    Config(Seq<char>),
    Json(Seq<char>),
    InvalidFormat(Seq<char>),
    ServerNotFound(Seq<char>),
    ProcessSpawn(Seq<char>),
    Connection { server: Seq<char>, reason: Seq<char> },
}

impl View for ProxyError {
    type V = ProxyErrorView;

    open spec fn view(&self) -> ProxyErrorView {
        match self {
            ProxyError::Config(text) => ProxyErrorView::Config(text@),
            ProxyError::Json(text) => ProxyErrorView::Json(text@),
            ProxyError::InvalidFormat(text) => ProxyErrorView::InvalidFormat(text@),
            ProxyError::ServerNotFound(name) => ProxyErrorView::ServerNotFound(name@),
            ProxyError::ProcessSpawn(text) => ProxyErrorView::ProcessSpawn(text@),
            ProxyError::Connection { server, reason } => ProxyErrorView::Connection {
                server: server@,
                reason: reason@,
            },
        }
    }
}

impl ProxyError {
    /// The error with the given text that the configuration cannot be used.
    pub fn config(text: &str) -> (error: ProxyError)
        ensures
            error@ == ProxyErrorView::Config(text@),
    {
        ProxyError::Config(text.to_string())
    }

    /// The error with the given text that a name is of another form.
    pub fn invalid_format(text: &str) -> (error: ProxyError)
        ensures
            error@ == ProxyErrorView::InvalidFormat(text@),
    {
        ProxyError::InvalidFormat(text.to_string())
    }

    /// The error that no server of the given name is connected.
    pub fn server_not_found(name: &str) -> (error: ProxyError)
        ensures
            error@ == ProxyErrorView::ServerNotFound(name@),
    {
        ProxyError::ServerNotFound(name.to_string())
    }

    /// The error with the given text that a process could not be started.
    pub fn process_spawn(text: &str) -> (error: ProxyError)
        ensures
            error@ == ProxyErrorView::ProcessSpawn(text@),
    {
        ProxyError::ProcessSpawn(text.to_string())
    }

    /// The error that a server could not be connected to, and why.
    pub fn connection(server: &str, reason: &str) -> (error: ProxyError)
        ensures
            error@ == (ProxyErrorView::Connection { server: server@, reason: reason@ }),
    {
        ProxyError::Connection { server: server.to_string(), reason: reason.to_string() }
    }
}

/// What kind of error a request is answered with.
#[derive(Clone, Copy, Debug, PartialEq, Eq, Structural)]
pub enum RpcErrorKind {
    /// The parameters of the request cannot be used.
    InvalidParams,
    /// The request could not be served.
    InternalError,
}

/// The error that a request is answered with.
#[derive(Clone, Debug, PartialEq, Eq)]
pub struct RpcError {
    /// The kind of the error.
    pub kind: RpcErrorKind,
    /// What went wrong, in words.
    pub message: String,
}

impl RpcErrorKind {
    /// The number that JSON-RPC gives to the kind.
    pub open spec fn number(self) -> int {
        match self {
            RpcErrorKind::InvalidParams => -32602,
            RpcErrorKind::InternalError => -32603,
        }
    }

    /// The number that JSON-RPC gives to the kind.
    pub fn code(&self) -> (code: i32)
        ensures
            code == self.number(),
    {
        match self {
            RpcErrorKind::InvalidParams => -32602,
            RpcErrorKind::InternalError => -32603,
        }
    }
}

} // verus!
