use may_minihttp::error::{err, FailureKind, ServeError};
use std::io;

#[test]
fn each_failure_of_the_server_has_its_words() {
    assert_eq!(
        ServeError::ReadClosed.describe(),
        Some((FailureKind::BrokenPipe, "read closed"))
    );
    assert_eq!(
        ServeError::WriteClosed.describe(),
        Some((FailureKind::BrokenPipe, "write closed"))
    );
    assert_eq!(
        ServeError::MissingKey.describe(),
        Some((FailureKind::InvalidData, "Missing WebSocket key"))
    );
    let outside = ServeError::Io(io::Error::new(io::ErrorKind::Other, "outside"));
    assert_eq!(outside.describe(), None);
}

#[test]
fn an_error_is_passed_on_as_it_is() {
    let r: io::Result<u8> = err(io::Error::new(io::ErrorKind::TimedOut, "slow"));
    let e = r.unwrap_err();
    assert_eq!(e.kind(), io::ErrorKind::TimedOut);
    assert_eq!(e.to_string(), "slow");
}
