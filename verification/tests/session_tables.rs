use softether_reader::softether_hub_session_reader::INTERRUPT_BYTE;
use softether_reader::HubSessionListEntry;
use softether_reader::SoftEtherError;
use softether_reader::SoftEtherHubSessionReader;

fn sample_summary() -> HubSessionListEntry {
    HubSessionListEntry {
        name: String::from("user1"),
        vlan_id: String::from("10"),
        location: String::from("LAN"),
        user: String::from("bob"),
        source: String::from("1.2.3.4"),
        connections: (2, 5),
        transfer_bytes: 1234,
        transfer_packets: 10,
    }
}

#[test]
fn list_decode_reads_rows_in_order() {
    let src = b"s1,10,LAN,bob,1.2.3.4,2/5,100 bytes,7 packets\n\
                s2,11,WAN,alice,5.6.7.8,1/2,200 bytes,9 packets\n";
    let entries = SoftEtherHubSessionReader::decode_hub_sessions(src).unwrap();
    assert_eq!(entries.len(), 2);
    assert_eq!(entries[0].name, "s1");
    assert_eq!(entries[0].vlan_id, "10");
    assert_eq!(entries[0].location, "LAN");
    assert_eq!(entries[0].user, "bob");
    assert_eq!(entries[0].source, "1.2.3.4");
    assert_eq!(entries[0].connections, (2, 5));
    assert_eq!(entries[0].transfer_bytes, 100);
    assert_eq!(entries[0].transfer_packets, 7);
    assert_eq!(entries[1].name, "s2");
    assert_eq!(entries[1].transfer_bytes, 200);
    assert_eq!(entries[1].transfer_packets, 9);
}

#[test]
fn list_decode_is_all_or_nothing() {
    let src = b"good,10,LAN,bob,1.2.3.4,2/5,100 bytes,7 packets\n\
                bad,11,LAN,alice,5.6.7.8,1/2,notanumber,3 packets\n";
    assert!(matches!(
        SoftEtherHubSessionReader::decode_hub_sessions(src),
        Err(SoftEtherError::FormatError(_))
    ));
}

#[test]
fn list_decode_empty_input_is_empty_list() {
    let entries = SoftEtherHubSessionReader::decode_hub_sessions(b"").unwrap();
    assert_eq!(entries.len(), 0);
}

#[test]
fn list_decode_short_row_leaves_text_columns_empty() {
    // Missing text columns become empty, but the numeric columns must
    // still decode; a row that ends before them fails.
    let src = b"only-name,10\n";
    assert!(matches!(
        SoftEtherHubSessionReader::decode_hub_sessions(src),
        Err(SoftEtherError::FormatError(_))
    ));
    let src2 = b"n,1,loc,u,src,nopair,5 bytes,6 packets\n";
    let entries = SoftEtherHubSessionReader::decode_hub_sessions(src2).unwrap();
    assert_eq!(entries[0].connections, (0, 0));
}

#[test]
fn list_decode_invalid_utf8_is_csv_error() {
    let src: &[u8] = &[0xff, 0xfe, b',', b'a', b'\n'];
    assert!(matches!(
        SoftEtherHubSessionReader::decode_hub_sessions(src),
        Err(SoftEtherError::CsvSyntaxError(_))
    ));
}

#[test]
fn detail_decode_copies_summary_and_assigns_labels() {
    let summary = sample_summary();
    let src = b"Outgoing Data Size,1 bytes\n\
                Outgoing Unicast Packets,2 packets\n\
                Outgoing Unicast Total Size,3 bytes\n\
                Outgoing Broadcast Packets,4 packets\n\
                Outgoing Broadcast Total Size,5 bytes\n\
                Incoming Data Size,6 bytes\n\
                Incoming Unicast Packets,7 packets\n\
                Incoming Unicast Total Size,8 bytes\n\
                Incoming Broadcast Packets,9 packets\n\
                Incoming Broadcast Total Size,10 bytes\n";
    let d = SoftEtherHubSessionReader::decode_hub_session_info(src, &summary).unwrap();
    assert_eq!(d.name, "user1");
    assert_eq!(d.vlan_id, "10");
    assert_eq!(d.location, "LAN");
    assert_eq!(d.user, "bob");
    assert_eq!(d.source, "1.2.3.4");
    assert_eq!(d.connections, (2, 5));
    assert_eq!(d.transfer_bytes, 1234);
    assert_eq!(d.transfer_packets, 10);
    assert_eq!(d.outgoing_data_size, 1);
    assert_eq!(d.outgoing_unicast_packets, 2);
    assert_eq!(d.outgoing_unicast_bytes, 3);
    assert_eq!(d.outgoing_broadcast_packets, 4);
    assert_eq!(d.outgoing_broadcast_bytes, 5);
    assert_eq!(d.incoming_data_size, 6);
    assert_eq!(d.incoming_unicast_packets, 7);
    assert_eq!(d.incoming_unicast_bytes, 8);
    assert_eq!(d.incoming_broadcast_packets, 9);
    assert_eq!(d.incoming_broadcast_bytes, 10);
}

#[test]
fn detail_decode_ignores_unrecognized_label_with_garbage_value() {
    let summary = sample_summary();
    let src = b"Some Future Field,N/A\nOutgoing Data Size,10 bytes\n";
    let d = SoftEtherHubSessionReader::decode_hub_session_info(src, &summary).unwrap();
    assert_eq!(d.outgoing_data_size, 10);
    assert_eq!(d.incoming_data_size, 0);
}

#[test]
fn detail_decode_unset_fields_stay_zero() {
    let summary = sample_summary();
    let d = SoftEtherHubSessionReader::decode_hub_session_info(b"", &summary).unwrap();
    assert_eq!(d.name, "user1");
    assert_eq!(d.connections, (2, 5));
    assert_eq!(d.outgoing_data_size, 0);
    assert_eq!(d.incoming_broadcast_bytes, 0);
}

#[test]
fn detail_decode_later_row_overwrites_earlier() {
    let summary = sample_summary();
    let src = b"Outgoing Data Size,1 bytes\nOutgoing Data Size,2 bytes\n";
    let d = SoftEtherHubSessionReader::decode_hub_session_info(src, &summary).unwrap();
    assert_eq!(d.outgoing_data_size, 2);
}

#[test]
fn detail_decode_bad_value_under_recognized_label_fails() {
    let summary = sample_summary();
    let src = b"Outgoing Data Size,N/A\n";
    assert!(matches!(
        SoftEtherHubSessionReader::decode_hub_session_info(src, &summary),
        Err(SoftEtherError::FormatError(_))
    ));
}

#[test]
fn end_to_end_list_then_detail() {
    let list = b"user1,10,LAN,bob,1.2.3.4,2/5,\"1,234 bytes\",\"10 packets\"\n";
    let entries = SoftEtherHubSessionReader::decode_hub_sessions(list).unwrap();
    assert_eq!(entries.len(), 1);
    assert_eq!(entries[0].connections, (2, 5));
    assert_eq!(entries[0].transfer_bytes, 1234);
    assert_eq!(entries[0].transfer_packets, 10);
    let detail = b"Outgoing Data Size,11 bytes\n\
                   Outgoing Unicast Packets,12 packets\n\
                   Outgoing Unicast Total Size,13 bytes\n\
                   Outgoing Broadcast Packets,14 packets\n\
                   Outgoing Broadcast Total Size,15 bytes\n\
                   Incoming Data Size,16 bytes\n\
                   Incoming Unicast Packets,17 packets\n\
                   Incoming Unicast Total Size,18 bytes\n\
                   Incoming Broadcast Packets,19 packets\n\
                   Incoming Broadcast Total Size,20 bytes\n";
    let d = SoftEtherHubSessionReader::decode_hub_session_info(detail, &entries[0]).unwrap();
    assert_eq!(d.name, "user1");
    assert_eq!(d.vlan_id, "10");
    assert_eq!(d.location, "LAN");
    assert_eq!(d.user, "bob");
    assert_eq!(d.source, "1.2.3.4");
    assert_eq!(d.connections, (2, 5));
    assert_eq!(d.transfer_bytes, 1234);
    assert_eq!(d.transfer_packets, 10);
    assert_eq!(d.outgoing_data_size, 11);
    assert_eq!(d.outgoing_unicast_packets, 12);
    assert_eq!(d.outgoing_unicast_bytes, 13);
    assert_eq!(d.outgoing_broadcast_packets, 14);
    assert_eq!(d.outgoing_broadcast_bytes, 15);
    assert_eq!(d.incoming_data_size, 16);
    assert_eq!(d.incoming_unicast_packets, 17);
    assert_eq!(d.incoming_unicast_bytes, 18);
    assert_eq!(d.incoming_broadcast_packets, 19);
    assert_eq!(d.incoming_broadcast_bytes, 20);
}

#[test]
fn invocation_args_follow_the_protocol() {
    let a = SoftEtherHubSessionReader::session_list_args("host:443", "HUB1", "secret");
    assert_eq!(a.len(), 7);
    assert_eq!(a[0], "host:443");
    assert_eq!(a[1], "/SERVER");
    assert_eq!(a[2], "/HUB:HUB1");
    assert_eq!(a[3], "/PASSWORD:secret");
    assert_eq!(a[4], "/CSV");
    assert_eq!(a[5], "/CMD");
    assert_eq!(a[6], "SessionList");
    let b = SoftEtherHubSessionReader::session_detail_args("host:443", "HUB1", "secret", "user1");
    assert_eq!(b.len(), 8);
    assert_eq!(b[6], "SessionGet");
    assert_eq!(b[7], "user1");
    assert_eq!(INTERRUPT_BYTE, 4);
}
