//! The settings of a socket JSON-RPC client, gathered before it connects.

use std::time::Duration;
use vstd::prelude::*;

verus! {

/// How request ids are written.
#[derive(Clone, Copy, Debug, PartialEq, Eq, Structural)]
pub enum IdKind {
    /// Ids are JSON numbers.
    Number,
    /// Ids are JSON strings.
    String,
}

/// The duration of `secs` whole seconds, as `Duration::from_secs` makes it.
pub uninterp spec fn duration_from_secs(secs: u64) -> Duration;

/// `Duration::from_secs`: the duration of `secs` whole seconds. It is a
/// function of `secs` alone; its value is opaque here.
#[verifier::external_body]
fn seconds(secs: u64) -> (d: Duration)
    ensures
        d == duration_from_secs(secs),
{
    Duration::from_secs(secs)
}

/// The settings a builder holds.
pub struct ClientSettings {
    pub id_kind: IdKind,
    pub max_concurrent_requests: usize,
    pub max_buffer_capacity_per_subscription: usize,
    pub max_log_length: u32,
    pub request_timeout: Duration,
}

/// Builds a JSON-RPC client that talks over a socket.
pub struct SocketClientBuilder {
    id_kind: IdKind,
    max_concurrent_requests: usize,
    max_buffer_capacity_per_subscription: usize,
    max_log_length: u32,
    request_timeout: Duration,
}

impl View for SocketClientBuilder {
    type V = ClientSettings;

    closed spec fn view(&self) -> ClientSettings {
        ClientSettings {
            id_kind: self.id_kind,
            max_concurrent_requests: self.max_concurrent_requests,
            max_buffer_capacity_per_subscription: self.max_buffer_capacity_per_subscription,
            max_log_length: self.max_log_length,
            request_timeout: self.request_timeout,
        }
    }
}

/// The default settings: numeric ids, 256 concurrent requests, 1024 buffered
/// notifications per subscription, logs cut at 4096 bytes, and a request
/// timeout of 60 seconds.
pub open spec fn default_settings() -> ClientSettings {
    ClientSettings {
        id_kind: IdKind::Number,
        max_concurrent_requests: 256,
        max_buffer_capacity_per_subscription: 1024,
        max_log_length: 4096,
        request_timeout: duration_from_secs(60),
    }
}

impl Default for SocketClientBuilder {
    fn default() -> (b: SocketClientBuilder)
        ensures
            b@ == default_settings(),
    {
        SocketClientBuilder {
            id_kind: IdKind::Number,
            max_log_length: 4096,
            max_concurrent_requests: 256,
            max_buffer_capacity_per_subscription: 1024,
            request_timeout: seconds(60),
        }
    }
}

impl SocketClientBuilder {
    /// Create a new socket client builder with the default settings.
    pub fn new() -> (b: SocketClientBuilder)
        ensures
            b@ == default_settings(),
    {
        SocketClientBuilder::default()
    }

    /// Set the timeout of a request (default is 60 seconds).
    pub fn request_timeout(self, timeout: Duration) -> (b: SocketClientBuilder)
        ensures
            b@ == (ClientSettings { request_timeout: timeout, ..self@ }),
    {
        SocketClientBuilder { request_timeout: timeout, ..self }
    }

    /// Set how many requests may await a response at once (default is 256).
    pub fn max_concurrent_requests(self, max: usize) -> (b: SocketClientBuilder)
        ensures
            b@ == (ClientSettings { max_concurrent_requests: max, ..self@ }),
    {
        SocketClientBuilder { max_concurrent_requests: max, ..self }
    }

    /// Set how many notifications a subscription buffers (default is 1024).
    pub fn max_buffer_capacity_per_subscription(self, max: usize) -> (b: SocketClientBuilder)
        ensures
            b@ == (ClientSettings { max_buffer_capacity_per_subscription: max, ..self@ }),
    {
        SocketClientBuilder { max_buffer_capacity_per_subscription: max, ..self }
    }

    /// Set how request ids are written (default is Number).
    pub fn id_format(self, kind: IdKind) -> (b: SocketClientBuilder)
        ensures
            b@ == (ClientSettings { id_kind: kind, ..self@ }),
    {
        SocketClientBuilder { id_kind: kind, ..self }
    }

    /// Set maximum length for logging calls and responses.
    ///
    /// Logs bigger than this limit will be truncated.
    pub fn set_max_logging_length(self, max: u32) -> (b: SocketClientBuilder)
        ensures
            b@ == (ClientSettings { max_log_length: max, ..self@ }),
    {
        SocketClientBuilder { max_log_length: max, ..self }
    }

    /// The settings that building the client hands on: the id format, the
    /// request limit, the subscription buffer, the log length and the
    /// request timeout.
    pub fn into_parts(self) -> (parts: (IdKind, usize, usize, u32, Duration))
        ensures
            parts == (
                self@.id_kind,
                self@.max_concurrent_requests,
                self@.max_buffer_capacity_per_subscription,
                self@.max_log_length,
                self@.request_timeout,
            ),
    {
        let SocketClientBuilder {
            max_log_length,
            id_kind,
            request_timeout,
            max_concurrent_requests,
            max_buffer_capacity_per_subscription,
        } = self;
        (
            id_kind,
            max_concurrent_requests,
            max_buffer_capacity_per_subscription,
            max_log_length,
            request_timeout,
        )
    }
}

} // verus!
