//! The proxy server's state: the live configuration cell and the lifecycle
//! of the single accept loop.
//!
//! The unverified shell owns the socket: it asks `start` for permission,
//! binds `127.0.0.1:<port>`, reports success through `confirm_started`, and
//! takes one `config_snapshot` per request. In-flight requests keep the
//! snapshot they captured; `update_config` only changes what later snapshots
//! see.

use vstd::prelude::*;
use crate::errors::ProxyError;

verus! {

/// The proxy's active configuration, replaced wholesale on every change.
#[derive(Debug)]
pub struct ProxyConfig {
    /// The real upstream bearer credential, injected into outbound requests.
    pub target_api_key: String,
    /// The upstream origin; a trailing slash is stripped at use time.
    pub target_base_url: String,
    /// The credential the local tool must present; the proxy's only
    /// authentication mechanism.
    pub local_api_key: String,
}

impl Clone for ProxyConfig {
    fn clone(&self) -> (r: Self)
        ensures
            r == *self,
    {
        ProxyConfig {
            target_api_key: self.target_api_key.clone(),
            target_base_url: self.target_base_url.clone(),
            local_api_key: self.local_api_key.clone(),
        }
    }
}

/// The server's state: at most one accept loop, a port, and the
/// configuration cell that every request snapshots.
pub struct TransparentProxyService {
    /// The live configuration; `None` means every request is rejected.
    pub config: Option<ProxyConfig>,
    /// Whether the accept loop is up.
    pub listening: bool,
    /// The local port the proxy serves on.
    pub port: u16,
}

impl TransparentProxyService {
    /// A stopped service for `port`, with no configuration.
    pub fn new(port: u16) -> (r: Self)
        ensures
            r.config is None,
            !r.listening,
            r.port == port,
    {
        TransparentProxyService { config: None, listening: false, port }
    }

    /// Stages a start. Refused while the accept loop runs, so at most one
    /// loop ever exists; otherwise the configuration is stored and the shell
    /// must bind `127.0.0.1:<port>` next, calling `confirm_started` on
    /// success and reporting `ProxyError::BindFailed` otherwise (the staged
    /// configuration then stays, and the service stays stopped, exactly as
    /// if the bind had never been tried).
    pub fn start(&mut self, config: ProxyConfig) -> (r: Result<(), ProxyError>)
        ensures
            old(self).listening ==> r == Err::<(), ProxyError>(ProxyError::AlreadyRunning)
                && *final(self) == *old(self),
            !old(self).listening ==> r == Ok::<(), ProxyError>(()) && final(self).config == Some(
                config,
            ) && !final(self).listening && final(self).port == old(self).port,
    {
        if self.listening {
            return Err(ProxyError::AlreadyRunning);
        }
        self.config = Some(config);
        Ok(())
    }

    /// Records that the accept loop is up, after a successful bind.
    pub fn confirm_started(&mut self)
        ensures
            final(self).listening,
            final(self).config == old(self).config,
            final(self).port == old(self).port,
    {
        self.listening = true;
    }

    /// Stops the proxy: the accept loop is torn down and the configuration
    /// cleared. Safe to call when nothing is running.
    pub fn stop(&mut self) -> (r: Result<(), ProxyError>)
        ensures
            r == Ok::<(), ProxyError>(()),
            final(self).config is None,
            !final(self).listening,
            final(self).port == old(self).port,
    {
        self.listening = false;
        self.config = None;
        Ok(())
    }

    /// Whether the accept loop is up; no side effects.
    pub fn is_running(&self) -> (r: bool)
        ensures
            r == self.listening,
    {
        self.listening
    }

    /// Hot-swaps the configuration without touching the accept loop.
    /// Requests that already captured a snapshot keep it; new requests
    /// observe `config`.
    pub fn update_config(&mut self, config: ProxyConfig) -> (r: Result<(), ProxyError>)
        ensures
            r == Ok::<(), ProxyError>(()),
            final(self).config == Some(config),
            final(self).listening == old(self).listening,
            final(self).port == old(self).port,
    {
        self.config = Some(config);
        Ok(())
    }

    /// The point-in-time configuration a new request captures: a clone,
    /// taken and released at request start, never a lock held across the
    /// request.
    pub fn config_snapshot(&self) -> (r: Option<ProxyConfig>)
        ensures
            r == self.config,
    {
        match &self.config {
            Some(c) => Some(c.clone()),
            None => None,
        }
    }
}

} // verus!
