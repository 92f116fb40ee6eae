//! The error taxonomy shared by the proxy server, the per-request
//! forwarding logic, and the credential lifecycle manager.

use vstd::prelude::*;

verus! {

/// Every failure the library reports, by kind.
///
/// Server-lifecycle failures (`AlreadyRunning`, `BindFailed`) are returned to
/// whoever asked to start or stop the proxy. Per-request failures
/// (`NotConfigured`, `Unauthorized`, `UpstreamFailure`) become HTTP responses
/// and never abort the server. Credential-lifecycle failures are returned
/// synchronously and leave state unchanged.
#[derive(Clone, Copy, Debug, PartialEq, Eq, Structural)]
pub enum ProxyError {
    /// `start` was called while an accept loop is already running.
    AlreadyRunning,
    /// The listening port could not be bound.
    BindFailed,
    /// A request arrived while no proxy configuration is set.
    NotConfigured,
    /// The request did not present the expected local credential.
    Unauthorized,
    /// The upstream call failed (connect, DNS, TLS, timeout, protocol).
    UpstreamFailure,
    /// The tool's configuration file does not exist.
    ConfigMissing,
    /// The tool's configuration lacks the API key or base URL field.
    FieldMissing,
    /// The external store holds no saved real credentials.
    NoSavedCredentials,
    /// The operation was invoked for a tool the lifecycle manager does not support.
    UnsupportedTool,
}

impl ProxyError {
    /// A short fixed description, for display by the unverified shell.
    pub fn describe(&self) -> (r: &'static str)
        ensures
            r@ == self.spec_describe(),
    {
        match self {
            ProxyError::AlreadyRunning => "transparent proxy is already running",
            ProxyError::BindFailed => "failed to bind the proxy port",
            ProxyError::NotConfigured => "proxy not configured",
            ProxyError::Unauthorized => "Unauthorized: Invalid API Key",
            ProxyError::UpstreamFailure => "upstream request failed",
            ProxyError::ConfigMissing => "tool configuration file not found",
            ProxyError::FieldMissing => "tool configuration lacks the API key or base URL",
            ProxyError::NoSavedCredentials => "no saved real credentials",
            ProxyError::UnsupportedTool => "the transparent proxy only supports this one tool",
        }
    }

    /// The description `describe` returns for each variant.
    pub open spec fn spec_describe(&self) -> Seq<char> {
        match self {
            ProxyError::AlreadyRunning => "transparent proxy is already running"@,
            ProxyError::BindFailed => "failed to bind the proxy port"@,
            ProxyError::NotConfigured => "proxy not configured"@,
            ProxyError::Unauthorized => "Unauthorized: Invalid API Key"@,
            ProxyError::FieldMissing => "tool configuration lacks the API key or base URL"@,
            ProxyError::UpstreamFailure => "upstream request failed"@,
            ProxyError::ConfigMissing => "tool configuration file not found"@,
            ProxyError::NoSavedCredentials => "no saved real credentials"@,
            ProxyError::UnsupportedTool => "the transparent proxy only supports this one tool"@,
        }
    }
}

} // verus!
