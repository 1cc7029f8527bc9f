use clankerdiff_core::header::{ConnectionHeader, ConnectionHeaderError};
use std::str::FromStr;

fn parse(text: &str) -> Result<ConnectionHeader, ConnectionHeaderError> {
    ConnectionHeader::from_str(text)
}

#[test]
fn header_name_is_normalized_and_value_trimmed() {
    let header = parse("  X-Review-Token :  secret value \t").unwrap();
    assert_eq!(header.name(), "x-review-token");
    assert_eq!(header.value(), "secret value");
}

#[test]
fn header_splits_at_the_first_colon() {
    let header = parse("Authorization: Bearer a:b").unwrap();
    assert_eq!(header.name(), "authorization");
    assert_eq!(header.value(), "Bearer a:b");
    let empty = parse("X-Empty:").unwrap();
    assert_eq!(empty.value(), "");
}

#[test]
fn header_errors_come_in_order() {
    assert_eq!(parse("no separator").err(), Some(ConnectionHeaderError::MissingSeparator));
    assert_eq!(parse("   : value").err(), Some(ConnectionHeaderError::EmptyName));
    assert_eq!(parse("bad name: value").err(), Some(ConnectionHeaderError::InvalidName));
    assert_eq!(parse("caf\u{e9}: value").err(), Some(ConnectionHeaderError::InvalidName));
    assert_eq!(parse("X-Bad: a\u{7f}b").err(), Some(ConnectionHeaderError::InvalidValue));
    assert_eq!(parse("X-Bad: a\u{1}b").err(), Some(ConnectionHeaderError::InvalidValue));
    assert_eq!(parse("Host: \u{7f}").err(), Some(ConnectionHeaderError::ReservedName("host".to_owned())));
}

#[test]
fn handshake_headers_are_reserved() {
    for name in [
        "Host",
        "Connection",
        "Upgrade",
        "Sec-WebSocket-Key",
        "Sec-WebSocket-Version",
        "Sec-WebSocket-Protocol",
        "Sec-WebSocket-Extensions",
    ] {
        let error = parse(&format!("{name}: x")).err().unwrap();
        assert_eq!(error, ConnectionHeaderError::ReservedName(name.to_ascii_lowercase()));
    }
    assert!(parse("Sec-WebSocket-Accept: x").is_ok());
}

#[test]
fn header_values_may_hold_tabs_and_non_ascii_text() {
    let header = parse("X-Note: caf\u{e9}\tbar").unwrap();
    assert_eq!(header.value(), "caf\u{e9}\tbar");
}

#[test]
fn header_error_messages() {
    assert_eq!(ConnectionHeaderError::MissingSeparator.message(), "header must use NAME: VALUE syntax");
    assert_eq!(ConnectionHeaderError::EmptyName.message(), "header name must not be empty");
    assert_eq!(ConnectionHeaderError::InvalidName.message(), "invalid header name");
    assert_eq!(ConnectionHeaderError::InvalidValue.message(), "invalid value for header");
    assert_eq!(
        ConnectionHeaderError::ReservedName("host".to_owned()).message(),
        "header `host` is managed by the WebSocket client"
    );
}
