use pcap_stats::{packet_mapper, ApplicationProtocol, InternetProtocol, TransportProtocol};

fn frame(len: usize, protocol: u8, src: [u8; 4], dst: [u8; 4], sport: u16, dport: u16) -> Vec<u8> {
    let mut b = vec![0u8; len];
    b[12] = 0x08;
    b[13] = 0x00;
    b[14] = 0x45;
    b[23] = protocol;
    b[26..30].copy_from_slice(&src);
    b[30..34].copy_from_slice(&dst);
    if len >= 38 {
        b[34..36].copy_from_slice(&sport.to_be_bytes());
        b[36..38].copy_from_slice(&dport.to_be_bytes());
    }
    b
}

#[test]
fn http_over_tcp_frame_is_decoded() {
    let b = frame(74, 0x06, [10, 0, 0, 1], [10, 0, 0, 2], 12345, 80);
    let p = packet_mapper(&b).expect("accepted");
    assert_eq!(p.internet_layer, InternetProtocol::IPv4);
    assert_eq!(p.transport_layer, Some(TransportProtocol::Tcp));
    assert_eq!(p.application_layer, Some(ApplicationProtocol::Http));
    assert_eq!(p.source_ip, "10.0.0.1");
    assert_eq!(p.destination_ip, "10.0.0.2");
    assert_eq!(p.source_port, 12345);
    assert_eq!(p.destination_port, 80);
    assert_eq!(p.packet_length, 74);
}

#[test]
fn dns_over_udp_frame_is_decoded() {
    let b = frame(60, 0x11, [192, 168, 1, 254], [8, 8, 8, 8], 40000, 53);
    let p = packet_mapper(&b).expect("accepted");
    assert_eq!(p.transport_layer, Some(TransportProtocol::Udp));
    assert_eq!(p.application_layer, Some(ApplicationProtocol::Dns));
    assert_eq!(p.source_ip, "192.168.1.254");
    assert_eq!(p.destination_ip, "8.8.8.8");
    assert_eq!(p.packet_length, 60);
}

#[test]
fn port_443_counts_as_http_and_tcp_53_as_dns() {
    let b = frame(60, 0x06, [1, 2, 3, 4], [5, 6, 7, 8], 5000, 443);
    assert_eq!(packet_mapper(&b).unwrap().application_layer, Some(ApplicationProtocol::Http));
    let b = frame(60, 0x06, [1, 2, 3, 4], [5, 6, 7, 8], 5000, 53);
    assert_eq!(packet_mapper(&b).unwrap().application_layer, Some(ApplicationProtocol::Dns));
}

#[test]
fn unknown_ports_have_no_application_layer() {
    let b = frame(60, 0x06, [1, 2, 3, 4], [5, 6, 7, 8], 80, 8080);
    let p = packet_mapper(&b).unwrap();
    assert_eq!(p.transport_layer, Some(TransportProtocol::Tcp));
    assert_eq!(p.application_layer, None);
    let b = frame(60, 0x11, [1, 2, 3, 4], [5, 6, 7, 8], 53, 80);
    let p = packet_mapper(&b).unwrap();
    assert_eq!(p.transport_layer, Some(TransportProtocol::Udp));
    assert_eq!(p.application_layer, None);
}

#[test]
fn short_frames_are_rejected() {
    let b = frame(60, 0x06, [1, 2, 3, 4], [5, 6, 7, 8], 1, 2);
    assert!(packet_mapper(&b[..33]).is_none());
    assert!(packet_mapper(&[]).is_none());
    // Long enough for the addresses but not for the ports.
    assert!(packet_mapper(&b[..37]).is_none());
    assert!(packet_mapper(&b[..38]).is_some());
}

#[test]
fn non_ipv4_frames_are_rejected() {
    let mut b = frame(60, 0x06, [1, 2, 3, 4], [5, 6, 7, 8], 1, 2);
    b[12] = 0x86;
    b[13] = 0xdd;
    assert!(packet_mapper(&b).is_none());
    let mut b = frame(60, 0x06, [1, 2, 3, 4], [5, 6, 7, 8], 1, 2);
    b[14] = 0x65;
    assert!(packet_mapper(&b).is_none());
}

#[test]
fn other_transports_are_rejected() {
    let b = frame(60, 0x01, [1, 2, 3, 4], [5, 6, 7, 8], 1, 2);
    assert!(packet_mapper(&b).is_none());
}

#[test]
fn header_length_moves_the_ports() {
    // IHL of 6 words: the transport header starts at 14 + 24 = 38.
    let mut b = frame(60, 0x06, [1, 2, 3, 4], [5, 6, 7, 8], 0, 0);
    b[14] = 0x46;
    b[38..40].copy_from_slice(&1000u16.to_be_bytes());
    b[40..42].copy_from_slice(&80u16.to_be_bytes());
    let p = packet_mapper(&b).unwrap();
    assert_eq!(p.source_port, 1000);
    assert_eq!(p.destination_port, 80);
    assert!(packet_mapper(&b[..41]).is_none());
    // IHL of 15 words needs 14 + 60 + 4 bytes.
    let mut b = frame(77, 0x06, [1, 2, 3, 4], [5, 6, 7, 8], 0, 0);
    b[14] = 0x4f;
    assert!(packet_mapper(&b).is_none());
    let mut b = frame(78, 0x06, [1, 2, 3, 4], [5, 6, 7, 8], 0, 0);
    b[14] = 0x4f;
    assert!(packet_mapper(&b).is_some());
}

#[test]
fn record_length_is_the_frame_length() {
    for len in [34usize, 38, 60, 1514] {
        let b = frame(len, 0x11, [1, 2, 3, 4], [5, 6, 7, 8], 1, 2);
        let r = packet_mapper(&b);
        if len >= 38 {
            assert_eq!(r.unwrap().packet_length, len);
        } else {
            assert!(r.is_none());
        }
    }
}

#[test]
fn application_layer_only_with_transport_layer() {
    for (proto, port) in [(0x06u8, 80u16), (0x06, 443), (0x06, 53), (0x11, 53), (0x11, 9)] {
        let b = frame(60, proto, [1, 2, 3, 4], [5, 6, 7, 8], 1, port);
        let p = packet_mapper(&b).unwrap();
        if p.application_layer.is_some() {
            assert!(p.transport_layer.is_some());
        }
    }
}

#[test]
fn addresses_are_written_in_dotted_decimal() {
    assert_eq!(pcap_stats::dotted_quad_string(0, 0, 0, 0), "0.0.0.0");
    assert_eq!(pcap_stats::dotted_quad_string(255, 255, 255, 255), "255.255.255.255");
    assert_eq!(pcap_stats::dotted_quad_string(100, 10, 9, 1), "100.10.9.1");
    assert_eq!(pcap_stats::dotted_quad_string(192, 168, 20, 109), "192.168.20.109");
}

#[test]
fn all_octet_values_match_std_formatting() {
    for n in 0..=255u8 {
        assert_eq!(pcap_stats::dotted_quad_string(n, 1, n, 2), format!("{}.1.{}.2", n, n));
    }
}
