use catprinterd::ble::bluez::ConnectFailureKind;
use catprinterd::ble::session::{
    classify_io, connect_next_action, pause_after_failure, ConnectNext, IoAction,
    CONNECT_RETRY_PAUSE_MS, HOST_ABORT_PAUSE_MS, PRUNE_PAUSE_MS,
};

#[test]
fn classify_io_maps_errnos() {
    let e = |n: i32| std::io::Error::from_raw_os_error(n).raw_os_error();
    assert_eq!(classify_io(e(libc::EINTR)), IoAction::Retry);
    assert_eq!(classify_io(e(libc::EAGAIN)), IoAction::Retry);
    assert_eq!(classify_io(e(libc::ENOTCONN)), IoAction::LinkLost);
    assert_eq!(classify_io(e(libc::EPIPE)), IoAction::LinkLost);
    assert_eq!(classify_io(e(libc::ECONNRESET)), IoAction::LinkLost);
    assert_eq!(classify_io(e(libc::EIO)), IoAction::LinkLost);
    assert_eq!(
        classify_io(std::io::Error::new(std::io::ErrorKind::WriteZero, "x").raw_os_error()),
        IoAction::LinkLost
    );
}

#[test]
fn host_abort_pauses_longer_than_timeout_and_prune() {
    let abort = pause_after_failure(ConnectFailureKind::HostAbort);
    let timeout = pause_after_failure(ConnectFailureKind::Timeout);
    let prune = pause_after_failure(ConnectFailureKind::Pruned);
    let other = pause_after_failure(ConnectFailureKind::Other);
    assert!(
        abort > timeout,
        "{abort:?} should exceed timeout {timeout:?}"
    );
    assert!(abort > prune, "{abort:?} should exceed prune {prune:?}");
    assert_eq!(timeout, CONNECT_RETRY_PAUSE_MS);
    assert_eq!(other, CONNECT_RETRY_PAUSE_MS);
    assert_eq!(prune, PRUNE_PAUSE_MS);
    assert_eq!(abort, HOST_ABORT_PAUSE_MS);
}

#[test]
fn connect_next_action_by_kind() {
    assert_eq!(
        connect_next_action(ConnectFailureKind::AdapterOff, 1, 3),
        ConnectNext::FailAdapterOff
    );
    assert_eq!(
        connect_next_action(ConnectFailureKind::Timeout, 3, 3),
        ConnectNext::GiveUp
    );
    assert_eq!(
        connect_next_action(ConnectFailureKind::Timeout, 1, 3),
        ConnectNext::Retry {
            pause_ms: CONNECT_RETRY_PAUSE_MS,
            refresh_discovery: false,
        }
    );
    assert_eq!(
        connect_next_action(ConnectFailureKind::Pruned, 1, 3),
        ConnectNext::Retry {
            pause_ms: PRUNE_PAUSE_MS,
            refresh_discovery: true,
        }
    );
    assert_eq!(
        connect_next_action(ConnectFailureKind::HostAbort, 2, 3),
        ConnectNext::Retry {
            pause_ms: HOST_ABORT_PAUSE_MS,
            refresh_discovery: true,
        }
    );
    assert_eq!(
        connect_next_action(ConnectFailureKind::Other, 2, 3),
        ConnectNext::Retry {
            pause_ms: CONNECT_RETRY_PAUSE_MS,
            refresh_discovery: false,
        }
    );
}
