//! Core logic of a local credential-substituting reverse proxy and the
//! credential-swap lifecycle around it.
//!
//! A CLI tool is pointed at `http://127.0.0.1:<port>`; the proxy checks the
//! local credential the tool presents, swaps in the real upstream key and
//! base URL, forwards the request, and relays the response (buffered, or
//! chunk by chunk for server-sent-event streams). A lifecycle manager flips
//! the tool's on-disk configuration between "direct" and "proxied", caching
//! the real credentials in an external store while proxying is active.
//!
//! All decision logic lives here and is verified; sockets, files, and the
//! HTTP client are driven by a thin unverified shell around this crate.

pub mod doc;
pub mod envfile;
pub mod errors;
pub mod forwarder;
pub mod lifecycle;
pub mod profiles;
pub mod server;
pub mod text;
pub mod tools;
pub mod version;

pub use errors::ProxyError;
pub use lifecycle::TransparentProxyConfigService;
pub use server::ProxyConfig;
pub use server::TransparentProxyService;
