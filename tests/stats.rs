use pcap_stats::{
    generate_stats, stats_within_limits, ApplicationProtocol, InternetProtocol, PacketData,
    ProtocolKey, TransportProtocol,
};

fn record(
    transport: Option<TransportProtocol>,
    application: Option<ApplicationProtocol>,
    src: &str,
    dst: &str,
    sport: u16,
    dport: u16,
    len: usize,
) -> PacketData {
    PacketData {
        internet_layer: InternetProtocol::IPv4,
        transport_layer: transport,
        application_layer: application,
        source_ip: src.to_string(),
        destination_ip: dst.to_string(),
        source_port: sport,
        destination_port: dport,
        packet_length: len,
    }
}

fn tcp(src: &str, dst: &str, sport: u16, dport: u16, len: usize) -> PacketData {
    record(Some(TransportProtocol::Tcp), None, src, dst, sport, dport, len)
}

#[test]
fn empty_input_gives_empty_report() {
    let s = generate_stats(&Vec::new());
    assert_eq!(s.total_packets, 0);
    assert_eq!(s.total_bytes_packet, 0);
    assert!(s.by_protocol.is_empty());
    assert!(s.top_10_ips.is_empty());
    assert!(s.top_10_ports.is_empty());
}

#[test]
fn single_http_packet_report() {
    let recs = vec![record(
        Some(TransportProtocol::Tcp),
        Some(ApplicationProtocol::Http),
        "10.0.0.1",
        "10.0.0.2",
        12345,
        80,
        74,
    )];
    let s = generate_stats(&recs);
    assert_eq!(s.total_packets, 1);
    assert_eq!(s.total_bytes_packet, 74);
    assert_eq!(
        s.by_protocol,
        vec![
            (ProtocolKey::Internet(InternetProtocol::IPv4), 1),
            (ProtocolKey::Transport(TransportProtocol::Tcp), 1),
            (ProtocolKey::Application(ApplicationProtocol::Http), 1),
        ]
    );
    assert_eq!(s.top_10_ips, vec!["10.0.0.1".to_string(), "10.0.0.2".to_string()]);
    assert_eq!(s.top_10_ports, vec![80, 12345]);
}

#[test]
fn dns_over_udp_report() {
    let recs = vec![record(
        Some(TransportProtocol::Udp),
        Some(ApplicationProtocol::Dns),
        "10.0.0.5",
        "8.8.8.8",
        40000,
        53,
        60,
    )];
    let s = generate_stats(&recs);
    assert_eq!(
        s.by_protocol,
        vec![
            (ProtocolKey::Internet(InternetProtocol::IPv4), 1),
            (ProtocolKey::Transport(TransportProtocol::Udp), 1),
            (ProtocolKey::Application(ApplicationProtocol::Dns), 1),
        ]
    );
}

#[test]
fn totals_count_packets_and_sum_lengths() {
    let recs = vec![
        tcp("1.1.1.1", "2.2.2.2", 1, 2, 60),
        tcp("1.1.1.1", "2.2.2.2", 1, 2, 1514),
        tcp("1.1.1.1", "2.2.2.2", 1, 2, 40),
    ];
    let s = generate_stats(&recs);
    assert_eq!(s.total_packets, 3);
    assert_eq!(s.total_bytes_packet, 1614);
}

#[test]
fn each_layer_counted_once_per_packet() {
    let recs = vec![
        record(Some(TransportProtocol::Tcp), Some(ApplicationProtocol::Http), "a", "b", 1, 80, 60),
        record(Some(TransportProtocol::Udp), Some(ApplicationProtocol::Dns), "a", "b", 1, 53, 60),
        record(Some(TransportProtocol::Udp), None, "a", "b", 1, 9, 60),
        record(Some(TransportProtocol::Tcp), Some(ApplicationProtocol::Dns), "a", "b", 1, 53, 60),
    ];
    let s = generate_stats(&recs);
    assert_eq!(
        s.by_protocol,
        vec![
            (ProtocolKey::Internet(InternetProtocol::IPv4), 4),
            (ProtocolKey::Transport(TransportProtocol::Tcp), 2),
            (ProtocolKey::Transport(TransportProtocol::Udp), 2),
            (ProtocolKey::Application(ApplicationProtocol::Dns), 2),
            (ProtocolKey::Application(ApplicationProtocol::Http), 1),
        ]
    );
    let increments: u32 = s.by_protocol.iter().map(|(_, c)| *c).sum();
    assert_eq!(increments, 4 + 4 + 3);
}

#[test]
fn rankings_order_by_frequency_then_key() {
    let recs = vec![
        tcp("10.0.0.2", "10.0.0.10", 443, 80, 60),
        tcp("10.0.0.2", "10.0.0.3", 443, 22, 60),
        tcp("10.0.0.3", "10.0.0.9", 443, 22, 60),
    ];
    let s = generate_stats(&recs);
    // 10.0.0.2 and 10.0.0.3 twice, then the rest once, smaller strings first.
    assert_eq!(
        s.top_10_ips,
        vec![
            "10.0.0.2".to_string(),
            "10.0.0.3".to_string(),
            "10.0.0.10".to_string(),
            "10.0.0.9".to_string()
        ]
    );
    assert_eq!(s.top_10_ports, vec![443, 22, 80]);
}

#[test]
fn rankings_hold_at_most_ten_keys() {
    let mut recs = Vec::new();
    for i in 0..12u16 {
        let src = format!("172.16.0.{}", i);
        let dst = format!("172.16.1.{}", i);
        for _ in 0..(i + 1) {
            recs.push(tcp(&src, &dst, 1000 + i, 2000 + i, 60));
        }
    }
    let s = generate_stats(&recs);
    assert_eq!(s.top_10_ips.len(), 10);
    assert_eq!(s.top_10_ports.len(), 10);
    assert_eq!(s.top_10_ips[0], "172.16.0.11");
    assert_eq!(s.top_10_ips[1], "172.16.1.11");
    assert_eq!(s.top_10_ips[9], "172.16.1.7");
    assert_eq!(s.top_10_ports[0], 1011);
    assert_eq!(s.top_10_ports[1], 2011);
    assert_eq!(s.top_10_ports[9], 2007);
}

#[test]
fn equal_source_and_destination_count_twice() {
    let recs = vec![tcp("9.9.9.9", "9.9.9.9", 7, 7, 60), tcp("1.1.1.1", "2.2.2.2", 1, 2, 60)];
    let s = generate_stats(&recs);
    assert_eq!(s.top_10_ips[0], "9.9.9.9");
    assert_eq!(s.top_10_ports[0], 7);
    assert_eq!(s.top_10_ports, vec![7, 1, 2]);
}

#[test]
fn report_is_deterministic() {
    let recs = vec![tcp("3.3.3.3", "1.1.1.1", 5, 6, 60), tcp("2.2.2.2", "1.1.1.1", 6, 5, 70)];
    assert_eq!(generate_stats(&recs), generate_stats(&recs));
}

#[test]
fn limits_hold_for_ordinary_input() {
    let recs = vec![tcp("1.1.1.1", "2.2.2.2", 1, 2, 60)];
    assert!(stats_within_limits(&recs));
    assert!(stats_within_limits(&Vec::new()));
}

#[test]
fn limits_fail_when_byte_total_overflows() {
    let recs = vec![
        tcp("1.1.1.1", "2.2.2.2", 1, 2, usize::MAX),
        tcp("1.1.1.1", "2.2.2.2", 1, 2, usize::MAX),
    ];
    assert!(!stats_within_limits(&recs));
}
