use pcap_stats::{
    first_update_action, generate_stats, has_pcap_extension, next_update_action, path_builder,
    process_local_pcap, sidecar_path, total_stats_path, watched_pcap_paths, Aggregator, Config,
    Dispatcher, InternetProtocol, PacketData, ProtocolKey, TransportProtocol, UpdateAction,
    WatchEventKind,
};

fn frame(protocol: u8, src: [u8; 4], dst: [u8; 4], sport: u16, dport: u16) -> Vec<u8> {
    let mut b = vec![0u8; 60];
    b[12] = 0x08;
    b[14] = 0x45;
    b[23] = protocol;
    b[26..30].copy_from_slice(&src);
    b[30..34].copy_from_slice(&dst);
    b[34..36].copy_from_slice(&sport.to_be_bytes());
    b[36..38].copy_from_slice(&dport.to_be_bytes());
    b
}

fn tcp(src: &str, dst: &str) -> PacketData {
    PacketData {
        internet_layer: InternetProtocol::IPv4,
        transport_layer: Some(TransportProtocol::Tcp),
        application_layer: None,
        source_ip: src.to_string(),
        destination_ip: dst.to_string(),
        source_port: 1,
        destination_port: 2,
        packet_length: 60,
    }
}

#[test]
fn pcap_extension_is_recognised() {
    assert!(has_pcap_extension("/data/capture.pcap"));
    assert!(has_pcap_extension("a.pcap"));
    assert!(has_pcap_extension("dir/x.y.pcap"));
    assert!(!has_pcap_extension("/data/capture.pcapng"));
    assert!(!has_pcap_extension("/data/capture.PCAP"));
    assert!(!has_pcap_extension("/data/.pcap"));
    assert!(!has_pcap_extension("/data/pcap"));
    assert!(!has_pcap_extension("/data/capture.pcap/.."));
    assert!(!has_pcap_extension(""));
}

#[test]
fn output_path_is_built_from_the_file_name() {
    let (input, output) = path_builder("/data/in/a.pcap", "out").unwrap();
    assert_eq!(input, "/data/in/a.pcap");
    assert_eq!(output, "out/a.pcap.json");
    assert!(path_builder("/", "out").is_none());
    assert!(path_builder("/data/..", "out").is_none());
}

#[test]
fn duplicate_path_gives_one_job() {
    let mut d = Dispatcher::new("out".to_string(), 2);
    let first = d.dispatch("/w/a.pcap".to_string());
    let second = d.dispatch("/w/a.pcap".to_string());
    let job = first.unwrap();
    assert_eq!(job.worker, 0);
    assert_eq!(job.input, "/w/a.pcap");
    assert_eq!(job.output, "out/a.pcap.json");
    assert!(second.is_none());
}

#[test]
fn jobs_go_round_robin() {
    let mut d = Dispatcher::new("o".to_string(), 3);
    let mut workers = Vec::new();
    for name in ["a", "b", "c", "d", "e"] {
        let job = d.dispatch(format!("/w/{}.pcap", name)).unwrap();
        workers.push(job.worker);
    }
    assert_eq!(workers, vec![0, 1, 2, 0, 1]);
}

#[test]
fn other_paths_are_not_dispatched() {
    let mut d = Dispatcher::new("o".to_string(), 2);
    assert!(d.dispatch("/w/notes.txt".to_string()).is_none());
    assert!(d.dispatch("/w/.pcap".to_string()).is_none());
    let job = d.dispatch("/w/x.pcap".to_string()).unwrap();
    assert_eq!(job.worker, 0);
}

#[test]
fn every_distinct_pcap_path_dispatched_once() {
    let paths = ["/w/a.pcap", "/w/b.pcap", "/w/a.pcap", "/w/c.txt", "/w/b.pcap", "/w/c.pcap"];
    let mut d = Dispatcher::new("o".to_string(), 2);
    let mut inputs = Vec::new();
    for p in paths {
        if let Some(job) = d.dispatch(p.to_string()) {
            assert!(job.worker < 2);
            inputs.push(job.input);
        }
    }
    assert_eq!(inputs, vec!["/w/a.pcap", "/w/b.pcap", "/w/c.pcap"]);
}

#[test]
fn watcher_passes_pcap_paths_of_creations_and_changes() {
    let paths = vec!["/w/a.pcap".to_string(), "/w/b.txt".to_string(), "/w/c.pcap".to_string()];
    let expected = vec!["/w/a.pcap".to_string(), "/w/c.pcap".to_string()];
    assert_eq!(watched_pcap_paths(WatchEventKind::Create, &paths), expected);
    assert_eq!(watched_pcap_paths(WatchEventKind::Modify, &paths), expected);
    assert!(watched_pcap_paths(WatchEventKind::Other, &paths).is_empty());
}

#[test]
fn capture_file_frames_give_records_and_report() {
    let frames = vec![
        frame(0x06, [10, 0, 0, 1], [10, 0, 0, 2], 12345, 80),
        vec![0u8; 20],
        frame(0x01, [10, 0, 0, 1], [10, 0, 0, 2], 0, 0),
        frame(0x11, [10, 0, 0, 1], [10, 0, 0, 3], 5353, 53),
    ];
    let (packets, stats) = process_local_pcap(&frames);
    assert_eq!(packets.len(), 2);
    let stats = stats.unwrap();
    assert_eq!(stats.total_packets, 2);
    assert_eq!(stats.total_bytes_packet, 120);
    assert_eq!(stats.top_10_ips[0], "10.0.0.1");
    assert_eq!(stats.by_protocol[0], (ProtocolKey::Internet(InternetProtocol::IPv4), 2));
}

#[test]
fn aggregate_counts_every_batch() {
    let mut first = Vec::new();
    let mut second = Vec::new();
    for i in 1..=3 {
        first.push(tcp(&format!("10.1.0.{}", i), &format!("10.1.0.{}", i + 3)));
        second.push(tcp(&format!("10.2.0.{}", i), &format!("10.2.0.{}", i + 3)));
    }
    second.push(tcp("10.2.0.1", "10.2.0.4"));
    let per_file = [generate_stats(&first).total_packets, generate_stats(&second).total_packets];
    let mut agg = Aggregator::new();
    let after_first = agg.absorb(first).unwrap();
    assert_eq!(after_first.total_packets, 3);
    let total = agg.absorb(second).unwrap();
    assert_eq!(agg.record_count(), 7);
    assert_eq!(total.total_packets, per_file[0] + per_file[1]);
    // Twelve addresses: the two seen twice, then ascending order.
    assert_eq!(
        total.top_10_ips,
        vec![
            "10.2.0.1", "10.2.0.4", "10.1.0.1", "10.1.0.2", "10.1.0.3", "10.1.0.4", "10.1.0.5",
            "10.1.0.6", "10.2.0.2", "10.2.0.3"
        ]
    );
}

#[test]
fn publishing_paths() {
    assert_eq!(total_stats_path("out"), "out/total_stats.json");
    assert_eq!(sidecar_path("out/total_stats.json"), "out/total_stats.json.old");
}

#[test]
fn publish_protocol_steps() {
    assert_eq!(first_update_action(true), UpdateAction::MoveTargetToSidecar);
    assert_eq!(first_update_action(false), UpdateAction::WriteTarget);
    let a = UpdateAction::MoveTargetToSidecar;
    assert_eq!(next_update_action(a, true, true), UpdateAction::WriteTarget);
    assert_eq!(next_update_action(a, false, false), UpdateAction::Fail);
    let w = UpdateAction::WriteTarget;
    assert_eq!(next_update_action(w, true, true), UpdateAction::RemoveSidecar);
    assert_eq!(next_update_action(w, true, false), UpdateAction::Succeed);
    assert_eq!(next_update_action(w, false, true), UpdateAction::RestoreSidecar);
    assert_eq!(next_update_action(w, false, false), UpdateAction::Fail);
    assert_eq!(next_update_action(UpdateAction::RemoveSidecar, true, false), UpdateAction::Succeed);
    assert_eq!(next_update_action(UpdateAction::RemoveSidecar, false, true), UpdateAction::Fail);
    assert_eq!(next_update_action(UpdateAction::RestoreSidecar, true, false), UpdateAction::Fail);
}

#[test]
fn configuration_needs_a_worker() {
    let c = Config { watch_dir: "in".to_string(), output_dir: "out".to_string(), parallelism: 4 };
    assert!(c.is_usable());
    assert_eq!(c.worker_count(), 4);
    let c = Config { watch_dir: "in".to_string(), output_dir: "out".to_string(), parallelism: 0 };
    assert!(!c.is_usable());
}

#[test]
fn protocol_labels() {
    assert_eq!(ProtocolKey::Internet(InternetProtocol::IPv4).name(), "IPv4");
    assert_eq!(ProtocolKey::Transport(TransportProtocol::Tcp).name(), "Tcp");
    assert_eq!(ProtocolKey::Transport(TransportProtocol::Udp).name(), "Udp");
    assert_eq!(ProtocolKey::Application(pcap_stats::ApplicationProtocol::Dns).name(), "Dns");
    assert_eq!(ProtocolKey::Application(pcap_stats::ApplicationProtocol::Http).name(), "Http");
}

#[test]
fn file_name_tests_and_report_paths() {
    assert!(pcap_stats::is_pcap_file_name("a.pcap"));
    assert!(pcap_stats::is_pcap_file_name("..pcap"));
    assert!(!pcap_stats::is_pcap_file_name(".pcap"));
    assert!(!pcap_stats::is_pcap_file_name("a.pcapx"));
    assert!(!pcap_stats::is_pcap_file_name("a_pcap"));
    assert_eq!(pcap_stats::report_path("/var/out", "x.pcap"), "/var/out/x.pcap.json");
    assert_eq!(pcap_stats::report_path("", "x.pcap"), "/x.pcap.json");
}
