//! Summaries of captured network traffic: Ethernet frames are decoded into
//! packet records, records are folded into reports, and capture files that
//! appear in a directory are handed out to workers, each once.

pub mod frequency;
pub mod job_dispatcher;
pub mod model;
pub mod network_capture;
pub mod pcap_helper;
pub mod ranking;
pub mod service;
pub mod stat_helper;
pub mod util;

pub use job_dispatcher::{
    has_pcap_extension, is_pcap_file_name, path_builder, report_path, Dispatcher, Job,
};
pub use model::{
    ApplicationProtocol, Config, InternetProtocol, NetworkStats, PacketData, ProtocolKey,
    TransportProtocol,
};
pub use network_capture::collect_packets;
pub use pcap_helper::{dotted_quad_string, packet_mapper};
pub use service::{process_local_pcap, total_stats_path, watched_pcap_paths, Aggregator, WatchEventKind};
pub use stat_helper::{generate_stats, stats_within_limits};
pub use util::{first_update_action, next_update_action, sidecar_path, UpdateAction};
