use std::time::Duration;

use jsonrpc_socket_client::client::builder::{IdKind, SocketClientBuilder};

#[test]
fn builder_defaults() {
    let parts = SocketClientBuilder::new().into_parts();
    assert_eq!(parts, (IdKind::Number, 256, 1024, 4096, Duration::from_secs(60)));
    let parts = SocketClientBuilder::default().into_parts();
    assert_eq!(parts, (IdKind::Number, 256, 1024, 4096, Duration::from_secs(60)));
}

#[test]
fn builder_setters_change_their_own_setting() {
    let b = SocketClientBuilder::new().request_timeout(Duration::from_millis(1500));
    assert_eq!(b.into_parts(), (IdKind::Number, 256, 1024, 4096, Duration::from_millis(1500)));
    let b = SocketClientBuilder::new().max_concurrent_requests(8);
    assert_eq!(b.into_parts(), (IdKind::Number, 8, 1024, 4096, Duration::from_secs(60)));
    let b = SocketClientBuilder::new().max_buffer_capacity_per_subscription(16);
    assert_eq!(b.into_parts(), (IdKind::Number, 256, 16, 4096, Duration::from_secs(60)));
    let b = SocketClientBuilder::new().id_format(IdKind::String);
    assert_eq!(b.into_parts(), (IdKind::String, 256, 1024, 4096, Duration::from_secs(60)));
    let b = SocketClientBuilder::new().set_max_logging_length(10);
    assert_eq!(b.into_parts(), (IdKind::Number, 256, 1024, 10, Duration::from_secs(60)));
}

#[test]
fn builder_setters_chain() {
    let b = SocketClientBuilder::new()
        .id_format(IdKind::String)
        .max_concurrent_requests(1)
        .max_buffer_capacity_per_subscription(2)
        .set_max_logging_length(3)
        .request_timeout(Duration::from_secs(4));
    assert_eq!(b.into_parts(), (IdKind::String, 1, 2, 3, Duration::from_secs(4)));
}
