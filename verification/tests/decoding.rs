use softether_reader::SoftEtherError;
use softether_reader::SoftEtherReader;

#[test]
fn decode_packets_strips_all_locale_suffixes() {
    assert_eq!(SoftEtherReader::decode_packets("1,234 packets").unwrap(), 1234);
    assert_eq!(SoftEtherReader::decode_packets("1,234 パケット").unwrap(), 1234);
    assert_eq!(SoftEtherReader::decode_packets("1,234 数据包").unwrap(), 1234);
    assert_eq!(SoftEtherReader::decode_packets("1234").unwrap(), 1234);
}

#[test]
fn decode_bytes_strips_all_locale_suffixes() {
    assert_eq!(SoftEtherReader::decode_bytes("1,234 bytes").unwrap(), 1234);
    assert_eq!(SoftEtherReader::decode_bytes("1,234 バイト").unwrap(), 1234);
    assert_eq!(SoftEtherReader::decode_bytes("1,234 字节").unwrap(), 1234);
    assert_eq!(SoftEtherReader::decode_bytes("987654321").unwrap(), 987654321);
}

#[test]
fn decode_packets_rejects_unknown_suffix() {
    assert!(matches!(
        SoftEtherReader::decode_packets("10 frames"),
        Err(SoftEtherError::FormatError(_))
    ));
    // A "bytes" unit under the packets decoder is an unrecognized suffix,
    // never a best-effort strip.
    assert!(matches!(
        SoftEtherReader::decode_packets("10 bytes"),
        Err(SoftEtherError::FormatError(_))
    ));
}

#[test]
fn decode_bytes_rejects_unknown_suffix() {
    assert!(matches!(
        SoftEtherReader::decode_bytes("10 packets"),
        Err(SoftEtherError::FormatError(_))
    ));
    assert!(matches!(
        SoftEtherReader::decode_bytes(""),
        Err(SoftEtherError::FormatError(_))
    ));
}

#[test]
fn decode_connections_pair() {
    assert_eq!(SoftEtherReader::decode_connections("5/10").unwrap(), (5, 10));
}

#[test]
fn decode_connections_trims_halves() {
    assert_eq!(SoftEtherReader::decode_connections(" 2 / 5 ").unwrap(), (2, 5));
}

#[test]
fn decode_connections_no_slash_sentinel() {
    assert_eq!(
        SoftEtherReader::decode_connections("no-slash-here").unwrap(),
        (0, 0)
    );
}

#[test]
fn decode_connections_bad_half_fails() {
    assert!(matches!(
        SoftEtherReader::decode_connections("x/10"),
        Err(SoftEtherError::FormatError(_))
    ));
    assert!(matches!(
        SoftEtherReader::decode_connections("5/"),
        Err(SoftEtherError::FormatError(_))
    ));
}

#[test]
fn decode_count_value_too_large_fails() {
    // One past u64::MAX.
    assert!(matches!(
        SoftEtherReader::decode_packets("18,446,744,073,709,551,616 packets"),
        Err(SoftEtherError::FormatError(_))
    ));
    assert_eq!(
        SoftEtherReader::decode_packets("18,446,744,073,709,551,615 packets").unwrap(),
        u64::MAX
    );
}

#[test]
fn error_message_carries_payload() {
    let spawn = SoftEtherError::ProcessSpawnError(String::from("no such executable"));
    assert_eq!(spawn.message(), "no such executable");
    let tool = SoftEtherError::ExternalToolError(String::from("vpncmd failed ( bad hub )"));
    assert_eq!(tool.message(), "vpncmd failed ( bad hub )");
}
