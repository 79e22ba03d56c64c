use vstd::prelude::*;

verus! {

/// Settings read once at start-up and never changed afterwards.
pub struct Config {
    pub watch_dir: String,
    pub output_dir: String,
    pub parallelism: i8,
}

impl Config {
    /// A configuration is usable when it asks for at least one worker.
    pub open spec fn spec_is_usable(&self) -> bool {
        self.parallelism > 0
    }

    pub fn is_usable(&self) -> (r: bool)
        ensures
            r == self.spec_is_usable(),
    {
        self.parallelism > 0
    }

    /// The number of workers, for a usable configuration.
    pub fn worker_count(&self) -> (r: usize)
        requires
            self.spec_is_usable(),
        ensures
            r as int == self.parallelism as int,
            r > 0,
    {
        self.parallelism as usize
    }
}

#[derive(Debug, Clone, Copy, PartialEq, Eq, Hash, Structural)]
pub enum InternetProtocol {
    IPv4,
}

impl InternetProtocol {
    pub open spec fn spec_name(&self) -> Seq<char> {
        match self {
            InternetProtocol::IPv4 => "IPv4"@,
        }
    }

    /// The label written in reports.
    pub fn name(&self) -> (r: &'static str)
        ensures
            r@ == self.spec_name(),
    {
        match self {
            InternetProtocol::IPv4 => "IPv4",
        }
    }
}

#[derive(Debug, Clone, Copy, PartialEq, Eq, Hash, Structural)]
pub enum TransportProtocol {
    Tcp,
    Udp,
}

impl TransportProtocol {
    pub open spec fn spec_name(&self) -> Seq<char> {
        match self {
            TransportProtocol::Tcp => "Tcp"@,
            TransportProtocol::Udp => "Udp"@,
        }
    }

    /// The label written in reports.
    pub fn name(&self) -> (r: &'static str)
        ensures
            r@ == self.spec_name(),
    {
        match self {
            TransportProtocol::Tcp => "Tcp",
            TransportProtocol::Udp => "Udp",
        }
    }
}

#[derive(Debug, Clone, Copy, PartialEq, Eq, Hash, Structural)]
pub enum ApplicationProtocol {
    Dns,
    Http,
}

impl ApplicationProtocol {
    pub open spec fn spec_name(&self) -> Seq<char> {
        match self {
            ApplicationProtocol::Dns => "Dns"@,
            ApplicationProtocol::Http => "Http"@,
        }
    }

    /// The label written in reports.
    pub fn name(&self) -> (r: &'static str)
        ensures
            r@ == self.spec_name(),
    {
        match self {
            ApplicationProtocol::Dns => "Dns",
            ApplicationProtocol::Http => "Http",
        }
    }
}

/// One decoded Ethernet frame.
#[derive(Debug, Clone)]
pub struct PacketData {
    pub internet_layer: InternetProtocol,
    pub transport_layer: Option<TransportProtocol>,
    pub application_layer: Option<ApplicationProtocol>,
    pub source_ip: String,
    pub destination_ip: String,
    pub source_port: u16,
    pub destination_port: u16,
    pub packet_length: usize,
}

impl PacketData {
    /// An application layer is only ever recognised on top of a transport layer.
    pub open spec fn layers_consistent(&self) -> bool {
        self.application_layer is Some ==> self.transport_layer is Some
    }
}

/// A histogram key: one layer of one packet.
#[derive(Debug, Clone, Copy, PartialEq, Eq, Hash, Structural)]
pub enum ProtocolKey {
    Internet(InternetProtocol),
    Transport(TransportProtocol),
    Application(ApplicationProtocol),
}

impl ProtocolKey {
    pub open spec fn spec_name(&self) -> Seq<char> {
        match self {
            ProtocolKey::Internet(p) => p.spec_name(),
            ProtocolKey::Transport(p) => p.spec_name(),
            ProtocolKey::Application(p) => p.spec_name(),
        }
    }

    /// The label written in reports: that of the layer's protocol.
    pub fn name(&self) -> (r: &'static str)
        ensures
            r@ == self.spec_name(),
    {
        match self {
            ProtocolKey::Internet(p) => p.name(),
            ProtocolKey::Transport(p) => p.name(),
            ProtocolKey::Application(p) => p.name(),
        }
    }
}

/// Summary of a sequence of packets.
///
/// `by_protocol` lists each protocol that occurs at least once, with its count,
/// in the fixed order IPv4, Tcp, Udp, Dns, Http.
#[derive(Debug, Clone, PartialEq, Eq)]
pub struct NetworkStats {
    pub total_packets: usize,
    pub total_bytes_packet: u64,
    pub by_protocol: Vec<(ProtocolKey, u32)>,
    pub top_10_ips: Vec<String>,
    pub top_10_ports: Vec<u16>,
}

} // verus!
