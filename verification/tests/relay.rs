use gt::errors::{Outcome, TunnelError};
use gt::relay::{is_success_status, origin_host, TunnelRequest};

#[test]
fn only_status_two_hundred_succeeds() {
    assert!(is_success_status(200));
    assert!(!is_success_status(0));
    assert!(!is_success_status(201));
    assert!(!is_success_status(301));
    assert!(!is_success_status(404));
    assert!(!is_success_status(502));
}

#[test]
fn host_is_derived_from_the_origin() {
    assert_eq!(origin_host(&b"http://example.test".to_vec()), b"example.test".to_vec());
    assert_eq!(origin_host(&b"http://www.baidu.com".to_vec()), b"www.baidu.com".to_vec());
    assert_eq!(origin_host(&b"https://example.test/path/x".to_vec()), b"example.test".to_vec());
    assert_eq!(origin_host(&b"example.test/path".to_vec()), b"example.test".to_vec());
    assert_eq!(origin_host(&b"http://host:8080/x".to_vec()), b"host:8080".to_vec());
}

#[test]
fn tunnel_request_is_one_get_of_the_root() {
    let req = TunnelRequest::build(&b"http://example.test".to_vec());
    assert_eq!(req.method, b"GET".to_vec());
    assert_eq!(req.path, b"/".to_vec());
    assert_eq!(req.host, b"example.test".to_vec());
}

#[test]
fn outcome_success_test_and_error_descriptions() {
    assert!(Outcome::Success.is_success());
    assert!(!Outcome::Failure(TunnelError::RelayFailed).is_success());
    assert_eq!(
        TunnelError::NoChannelInPeerConnectionTimeout.describe(),
        "no channel in peer connection timeout"
    );
    assert_eq!(TunnelError::UnknownRoute.describe(), "unknown route");
    assert_eq!(TunnelError::MalformedMessage.describe(), "malformed message");
    assert_eq!(TunnelError::UnexpectedMessage.describe(), "unexpected message");
    assert_eq!(TunnelError::StreamClosed.describe(), "stream closed");
    assert_eq!(TunnelError::NegotiationFailed.describe(), "negotiation failed");
    assert_eq!(TunnelError::RelayFailed.describe(), "relay failed");
}
