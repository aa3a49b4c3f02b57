use ipecho::headers::Headers;
use ipecho::ip::IpAddress;
use ipecho::resolve::{get_ip, AppState, Error};

fn peer() -> IpAddress {
    IpAddress::V4(203, 0, 113, 5)
}

#[test]
fn no_trust_uses_peer_address() {
    let state = AppState::new(None);
    let mut headers = Headers::new();
    headers.add(b"x-client-ip".to_vec(), b"192.0.2.99".to_vec());
    assert_eq!(get_ip(peer(), &headers, &state), Ok(peer()));
}

#[test]
fn trusted_header_value_wins() {
    let state = AppState::new(Some("X-Client-IP".to_string()));
    let mut headers = Headers::new();
    headers.add(b"X-Client-IP".to_vec(), b"2001:db8::1".to_vec());
    assert_eq!(
        get_ip(peer(), &headers, &state),
        Ok(IpAddress::V6(0x2001, 0xdb8, 0, 0, 0, 0, 0, 1))
    );
}

#[test]
fn trusted_header_lookup_ignores_case() {
    let state = AppState::new(Some("X-Client-IP".to_string()));
    let mut headers = Headers::new();
    headers.add(b"x-client-ip".to_vec(), b"198.51.100.7".to_vec());
    assert_eq!(
        get_ip(peer(), &headers, &state),
        Ok(IpAddress::V4(198, 51, 100, 7))
    );
}

#[test]
fn missing_trusted_header_is_an_error() {
    let state = AppState::new(Some("X-Client-IP".to_string()));
    let mut headers = Headers::new();
    headers.add(b"accept".to_vec(), b"text/html".to_vec());
    assert_eq!(
        get_ip(peer(), &headers, &state),
        Err(Error::MissingTrustedHeader)
    );
}

#[test]
fn non_text_header_value_is_an_error() {
    let state = AppState::new(Some("X-Client-IP".to_string()));
    let mut headers = Headers::new();
    headers.add(b"X-Client-IP".to_vec(), vec![0xffu8, 0xfe, 0x01]);
    assert_eq!(
        get_ip(peer(), &headers, &state),
        Err(Error::InvalidHeaderEncoding)
    );
}

#[test]
fn unparsable_header_value_is_an_error() {
    let state = AppState::new(Some("X-Client-IP".to_string()));
    let mut headers = Headers::new();
    headers.add(b"X-Client-IP".to_vec(), b"not-an-ip".to_vec());
    assert_eq!(get_ip(peer(), &headers, &state), Err(Error::InvalidIpFormat));
}

#[test]
fn first_matching_header_wins() {
    let state = AppState::new(Some("X-Client-IP".to_string()));
    let mut headers = Headers::new();
    headers.add(b"x-client-ip".to_vec(), b"192.0.2.1".to_vec());
    headers.add(b"X-Client-IP".to_vec(), b"192.0.2.2".to_vec());
    assert_eq!(
        get_ip(peer(), &headers, &state),
        Ok(IpAddress::V4(192, 0, 2, 1))
    );
}

#[test]
fn error_messages_name_the_reason() {
    assert_eq!(Error::MissingTrustedHeader.message(), "No header found");
    assert_eq!(
        Error::InvalidHeaderEncoding.message(),
        "Could not convert supplied header to string"
    );
    assert_eq!(
        Error::InvalidIpFormat.message(),
        "Could not convert supplied header to IP address"
    );
}
