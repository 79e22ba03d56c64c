use crate::frequency::{
    frequencies, is_top_ranking, lemma_frequencies_push, lemma_occurrences_bounded, outranks, ranks,
    top_n_by_frequency, FrequencyTable,
};
use crate::model::{
    ApplicationProtocol, InternetProtocol, NetworkStats, PacketData, ProtocolKey,
    TransportProtocol,
};
use crate::ranking::{port_rank, text_rank};
use vstd::prelude::*;

verus! {

/// Length of the rankings in a report.
pub const TOP_N: usize = 10;

/// The packet has `k` as one of its layers.
pub open spec fn has_layer(p: PacketData, k: ProtocolKey) -> bool {
    match k {
        ProtocolKey::Internet(i) => p.internet_layer == i,
        ProtocolKey::Transport(t) => p.transport_layer == Some(t),
        ProtocolKey::Application(a) => p.application_layer == Some(a),
    }
}

/// How many of the packets have `k` as one of their layers.
pub open spec fn protocol_count(recs: Seq<PacketData>, k: ProtocolKey) -> nat
    decreases recs.len(),
{
    if recs.len() == 0 {
        0
    } else {
        protocol_count(recs.drop_last(), k) + if has_layer(recs.last(), k) {
            1nat
        } else {
            0nat
        }
    }
}

/// Sum of the packet lengths.
pub open spec fn total_bytes(recs: Seq<PacketData>) -> nat
    decreases recs.len(),
{
    if recs.len() == 0 {
        0
    } else {
        total_bytes(recs.drop_last()) + recs.last().packet_length as nat
    }
}

/// Every address seen, source then destination for each packet in turn.
pub open spec fn ip_occurrences(recs: Seq<PacketData>) -> Seq<Seq<int>>
    decreases recs.len(),
{
    if recs.len() == 0 {
        Seq::empty()
    } else {
        ip_occurrences(recs.drop_last()).push(text_rank(recs.last().source_ip@)).push(
            text_rank(recs.last().destination_ip@),
        )
    }
}

/// Every port seen, source then destination for each packet in turn.
pub open spec fn port_occurrences(recs: Seq<PacketData>) -> Seq<Seq<int>>
    decreases recs.len(),
{
    if recs.len() == 0 {
        Seq::empty()
    } else {
        port_occurrences(recs.drop_last()).push(port_rank(recs.last().source_port)).push(
            port_rank(recs.last().destination_port),
        )
    }
}

pub open spec fn protocol_entry(recs: Seq<PacketData>, k: ProtocolKey) -> Seq<(ProtocolKey, u32)> {
    if protocol_count(recs, k) > 0 {
        seq![(k, protocol_count(recs, k) as u32)]
    } else {
        Seq::empty()
    }
}

/// The protocols seen, with their counts, in the fixed order of a report.
pub open spec fn protocol_table(recs: Seq<PacketData>) -> Seq<(ProtocolKey, u32)> {
    protocol_entry(recs, ProtocolKey::Internet(InternetProtocol::IPv4)) + protocol_entry(
        recs,
        ProtocolKey::Transport(TransportProtocol::Tcp),
    ) + protocol_entry(recs, ProtocolKey::Transport(TransportProtocol::Udp)) + protocol_entry(
        recs,
        ProtocolKey::Application(ApplicationProtocol::Dns),
    ) + protocol_entry(recs, ProtocolKey::Application(ApplicationProtocol::Http))
}

/// The counts of a report fit its integer types.
pub open spec fn within_limits(recs: Seq<PacketData>) -> bool {
    recs.len() <= u32::MAX && total_bytes(recs) <= u64::MAX
}

/// `s` is the report on the packets `recs`.
pub open spec fn summarizes(recs: Seq<PacketData>, s: NetworkStats) -> bool {
    &&& s.total_packets == recs.len()
    &&& s.total_bytes_packet == total_bytes(recs)
    &&& s.by_protocol@ == protocol_table(recs)
    &&& is_top_ranking(frequencies(ip_occurrences(recs)), ranks(s.top_10_ips@), TOP_N as nat)
    &&& is_top_ranking(frequencies(port_occurrences(recs)), ranks(s.top_10_ports@), TOP_N as nat)
}

pub proof fn lemma_protocol_count_bounded(recs: Seq<PacketData>, k: ProtocolKey)
    ensures
        protocol_count(recs, k) <= recs.len(),
    decreases recs.len(),
{
    if recs.len() > 0 {
        lemma_protocol_count_bounded(recs.drop_last(), k);
    }
}

pub proof fn lemma_total_bytes_prefix(recs: Seq<PacketData>, i: int)
    requires
        0 <= i <= recs.len(),
    ensures
        total_bytes(recs.subrange(0, i)) <= total_bytes(recs),
    decreases recs.len() - i,
{
    if i < recs.len() {
        lemma_total_bytes_prefix(recs, i + 1);
        assert(recs.subrange(0, i + 1).drop_last() =~= recs.subrange(0, i));
    } else {
        assert(recs.subrange(0, i) =~= recs);
    }
}

pub proof fn lemma_occurrence_lengths(recs: Seq<PacketData>)
    ensures
        ip_occurrences(recs).len() == 2 * recs.len(),
        port_occurrences(recs).len() == 2 * recs.len(),
    decreases recs.len(),
{
    if recs.len() > 0 {
        lemma_occurrence_lengths(recs.drop_last());
    }
}

/// Every layer of every packet, counted once.
pub open spec fn layer_total(recs: Seq<PacketData>) -> nat {
    protocol_count(recs, ProtocolKey::Internet(InternetProtocol::IPv4)) + protocol_count(
        recs,
        ProtocolKey::Transport(TransportProtocol::Tcp),
    ) + protocol_count(recs, ProtocolKey::Transport(TransportProtocol::Udp)) + protocol_count(
        recs,
        ProtocolKey::Application(ApplicationProtocol::Dns),
    ) + protocol_count(recs, ProtocolKey::Application(ApplicationProtocol::Http))
}

/// One more packet adds one to the count of each of its layers and to no
/// other count: one for its internet layer, and one more for each higher
/// layer that it has.
pub proof fn lemma_packet_counts_its_layers(recs: Seq<PacketData>, p: PacketData)
    ensures
        forall|k: ProtocolKey| #[trigger]
            protocol_count(recs.push(p), k) == protocol_count(recs, k) + if has_layer(p, k) {
                1nat
            } else {
                0nat
            },
        layer_total(recs.push(p)) == layer_total(recs) + 1 + (if p.transport_layer is Some {
            1nat
        } else {
            0nat
        }) + (if p.application_layer is Some {
            1nat
        } else {
            0nat
        }),
{
    let q = recs.push(p);
    assert(q.drop_last() =~= recs);
    assert(q.last() == p);
    let ipv4 = ProtocolKey::Internet(InternetProtocol::IPv4);
    let tcp = ProtocolKey::Transport(TransportProtocol::Tcp);
    let udp = ProtocolKey::Transport(TransportProtocol::Udp);
    let dns = ProtocolKey::Application(ApplicationProtocol::Dns);
    let http = ProtocolKey::Application(ApplicationProtocol::Http);
    assert(protocol_count(q, ipv4) == protocol_count(recs, ipv4) + 1);
    assert(protocol_count(q, tcp) == protocol_count(recs, tcp) + if has_layer(p, tcp) {
        1nat
    } else {
        0nat
    });
    assert(protocol_count(q, udp) == protocol_count(recs, udp) + if has_layer(p, udp) {
        1nat
    } else {
        0nat
    });
    assert(protocol_count(q, dns) == protocol_count(recs, dns) + if has_layer(p, dns) {
        1nat
    } else {
        0nat
    });
    assert(protocol_count(q, http) == protocol_count(recs, http) + if has_layer(p, http) {
        1nat
    } else {
        0nat
    });
    match p.transport_layer {
        Some(TransportProtocol::Tcp) => assert(has_layer(p, tcp) && !has_layer(p, udp)),
        Some(TransportProtocol::Udp) => assert(!has_layer(p, tcp) && has_layer(p, udp)),
        None => assert(!has_layer(p, tcp) && !has_layer(p, udp)),
    }
    match p.application_layer {
        Some(ApplicationProtocol::Dns) => assert(has_layer(p, dns) && !has_layer(p, http)),
        Some(ApplicationProtocol::Http) => assert(!has_layer(p, dns) && has_layer(p, http)),
        None => assert(!has_layer(p, dns) && !has_layer(p, http)),
    }
}

/// How many of the packets have a transport layer.
pub open spec fn with_transport(recs: Seq<PacketData>) -> nat
    decreases recs.len(),
{
    if recs.len() == 0 {
        0
    } else {
        with_transport(recs.drop_last()) + if recs.last().transport_layer is Some {
            1nat
        } else {
            0nat
        }
    }
}

/// How many of the packets have an application layer.
pub open spec fn with_application(recs: Seq<PacketData>) -> nat
    decreases recs.len(),
{
    if recs.len() == 0 {
        0
    } else {
        with_application(recs.drop_last()) + if recs.last().application_layer is Some {
            1nat
        } else {
            0nat
        }
    }
}

/// Sum of the counts of a protocol table.
pub open spec fn entry_sum(table: Seq<(ProtocolKey, u32)>) -> nat
    decreases table.len(),
{
    if table.len() == 0 {
        0
    } else {
        entry_sum(table.drop_last()) + table.last().1 as nat
    }
}

proof fn lemma_entry_sum_concat(a: Seq<(ProtocolKey, u32)>, b: Seq<(ProtocolKey, u32)>)
    ensures
        entry_sum(a + b) == entry_sum(a) + entry_sum(b),
    decreases b.len(),
{
    if b.len() > 0 {
        lemma_entry_sum_concat(a, b.drop_last());
        assert((a + b).drop_last() =~= a + b.drop_last());
    } else {
        assert(a + b =~= a);
    }
}

proof fn lemma_entry_sum_of_entry(recs: Seq<PacketData>, k: ProtocolKey)
    requires
        recs.len() <= u32::MAX,
    ensures
        entry_sum(protocol_entry(recs, k)) == protocol_count(recs, k),
{
    lemma_protocol_count_bounded(recs, k);
    let e = protocol_entry(recs, k);
    if protocol_count(recs, k) > 0 {
        assert(e.drop_last() =~= Seq::<(ProtocolKey, u32)>::empty());
        assert(entry_sum(e.drop_last()) == 0);
        assert(e.last() == (k, protocol_count(recs, k) as u32));
    } else {
        assert(entry_sum(e) == 0);
    }
}

proof fn lemma_layer_total_counts(recs: Seq<PacketData>)
    ensures
        layer_total(recs) == recs.len() + with_transport(recs) + with_application(recs),
        protocol_count(recs, ProtocolKey::Internet(InternetProtocol::IPv4)) == recs.len(),
    decreases recs.len(),
{
    if recs.len() > 0 {
        let earlier = recs.drop_last();
        lemma_layer_total_counts(earlier);
        assert(earlier.push(recs.last()) =~= recs);
        lemma_packet_counts_its_layers(earlier, recs.last());
        assert(has_layer(recs.last(), ProtocolKey::Internet(InternetProtocol::IPv4)));
    }
}

/// In a report, the internet layer is counted once per packet, and all the
/// counts together are one per packet plus one for each transport layer and
/// one for each application layer.
pub proof fn lemma_report_counts_every_layer(recs: Seq<PacketData>, s: NetworkStats)
    requires
        summarizes(recs, s),
        within_limits(recs),
    ensures
        entry_sum(s.by_protocol@) == recs.len() + with_transport(recs) + with_application(recs),
        recs.len() > 0 ==> s.by_protocol@[0] == (
            ProtocolKey::Internet(InternetProtocol::IPv4),
            recs.len() as u32,
        ),
{
    let ipv4 = ProtocolKey::Internet(InternetProtocol::IPv4);
    let tcp = ProtocolKey::Transport(TransportProtocol::Tcp);
    let udp = ProtocolKey::Transport(TransportProtocol::Udp);
    let dns = ProtocolKey::Application(ApplicationProtocol::Dns);
    let http = ProtocolKey::Application(ApplicationProtocol::Http);
    lemma_layer_total_counts(recs);
    lemma_entry_sum_of_entry(recs, ipv4);
    lemma_entry_sum_of_entry(recs, tcp);
    lemma_entry_sum_of_entry(recs, udp);
    lemma_entry_sum_of_entry(recs, dns);
    lemma_entry_sum_of_entry(recs, http);
    let e1 = protocol_entry(recs, ipv4);
    let e2 = protocol_entry(recs, tcp);
    let e3 = protocol_entry(recs, udp);
    let e4 = protocol_entry(recs, dns);
    let e5 = protocol_entry(recs, http);
    lemma_entry_sum_concat(e1, e2);
    lemma_entry_sum_concat(e1 + e2, e3);
    lemma_entry_sum_concat(e1 + e2 + e3, e4);
    lemma_entry_sum_concat(e1 + e2 + e3 + e4, e5);
    if recs.len() > 0 {
        assert((e1 + e2 + e3 + e4 + e5)[0] == e1[0]);
    }
}

/// The rankings of a report hold at most ten keys each, in non-increasing
/// order of frequency, keys of equal frequency in ascending order (see
/// `outranks`).
pub proof fn lemma_report_rankings_ordered(recs: Seq<PacketData>, s: NetworkStats)
    requires
        summarizes(recs, s),
    ensures
        s.top_10_ips.len() <= TOP_N,
        s.top_10_ports.len() <= TOP_N,
        forall|i: int, j: int|
            0 <= i < j < s.top_10_ips.len() ==> outranks(
                frequencies(ip_occurrences(recs)),
                #[trigger] ranks(s.top_10_ips@)[i],
                #[trigger] ranks(s.top_10_ips@)[j],
            ),
        forall|i: int, j: int|
            0 <= i < j < s.top_10_ports.len() ==> outranks(
                frequencies(port_occurrences(recs)),
                #[trigger] ranks(s.top_10_ports@)[i],
                #[trigger] ranks(s.top_10_ports@)[j],
            ),
{
    assert(ranks(s.top_10_ips@).len() == s.top_10_ips.len());
    assert(ranks(s.top_10_ports@).len() == s.top_10_ports.len());
}

/// Whether a report on `data_packets` fits its integer types.
pub fn stats_within_limits(data_packets: &Vec<PacketData>) -> (r: bool)
    ensures
        r == within_limits(data_packets@),
{
    let len = data_packets.len();
    if len > u32::MAX as usize {
        return false;
    }
    let mut sum: u64 = 0;
    let mut i: usize = 0;
    while i < len
        invariant
            len == data_packets.len(),
            i <= len,
            len <= u32::MAX,
            sum == total_bytes(data_packets@.subrange(0, i as int)),
        decreases len - i,
    {
        let ghost prefix = data_packets@.subrange(0, i as int + 1);
        assert(prefix.drop_last() =~= data_packets@.subrange(0, i as int));
        let l = data_packets[i].packet_length;
        if l as u64 > u64::MAX - sum {
            proof {
                lemma_total_bytes_prefix(data_packets@, i as int + 1);
            }
            return false;
        }
        sum = sum + l as u64;
        i = i + 1;
    }
    assert(data_packets@.subrange(0, len as int) =~= data_packets@);
    true
}

/// Folds a sequence of packets into its report.
pub fn generate_stats(data_packets: &Vec<PacketData>) -> (stats: NetworkStats)
    requires
        within_limits(data_packets@),
    ensures
        summarizes(data_packets@, stats),
{
    let ghost recs = data_packets@;
    let len = data_packets.len();
    let mut total_bytes_packet: u64 = 0;
    let mut ipv4: u32 = 0;
    let mut tcp: u32 = 0;
    let mut udp: u32 = 0;
    let mut dns: u32 = 0;
    let mut http: u32 = 0;
    let mut ip_freq: FrequencyTable<String> = FrequencyTable::new();
    let mut port_freq: FrequencyTable<u16> = FrequencyTable::new();
    proof {
        assert(recs.subrange(0, 0) =~= Seq::<PacketData>::empty());
        assert(frequencies(Seq::empty()) =~= Map::<Seq<int>, nat>::empty());
    }
    let mut i: usize = 0;
    while i < len
        invariant
            recs == data_packets@,
            len == recs.len(),
            within_limits(recs),
            i <= len,
            total_bytes_packet == total_bytes(recs.subrange(0, i as int)),
            ipv4 == protocol_count(
                recs.subrange(0, i as int),
                ProtocolKey::Internet(InternetProtocol::IPv4),
            ),
            tcp == protocol_count(
                recs.subrange(0, i as int),
                ProtocolKey::Transport(TransportProtocol::Tcp),
            ),
            udp == protocol_count(
                recs.subrange(0, i as int),
                ProtocolKey::Transport(TransportProtocol::Udp),
            ),
            dns == protocol_count(
                recs.subrange(0, i as int),
                ProtocolKey::Application(ApplicationProtocol::Dns),
            ),
            http == protocol_count(
                recs.subrange(0, i as int),
                ProtocolKey::Application(ApplicationProtocol::Http),
            ),
            ip_freq.wf(),
            ip_freq.frequencies() == frequencies(ip_occurrences(recs.subrange(0, i as int))),
            port_freq.wf(),
            port_freq.frequencies() == frequencies(port_occurrences(recs.subrange(0, i as int))),
        decreases len - i,
    {
        let ghost before = recs.subrange(0, i as int);
        let ghost after = recs.subrange(0, i as int + 1);
        let packet = &data_packets[i];
        proof {
            assert(after.drop_last() =~= before);
            assert(after.last() == *packet);
            lemma_total_bytes_prefix(recs, i as int + 1);
            lemma_protocol_count_bounded(after, ProtocolKey::Internet(InternetProtocol::IPv4));
            lemma_protocol_count_bounded(after, ProtocolKey::Transport(TransportProtocol::Tcp));
            lemma_protocol_count_bounded(after, ProtocolKey::Transport(TransportProtocol::Udp));
            lemma_protocol_count_bounded(after, ProtocolKey::Application(ApplicationProtocol::Dns));
            lemma_protocol_count_bounded(
                after,
                ProtocolKey::Application(ApplicationProtocol::Http),
            );
            lemma_occurrence_lengths(before);
        }
        total_bytes_packet = total_bytes_packet + packet.packet_length as u64;
        match packet.internet_layer {
            InternetProtocol::IPv4 => ipv4 = ipv4 + 1,
        }
        match packet.transport_layer {
            Some(TransportProtocol::Tcp) => tcp = tcp + 1,
            Some(TransportProtocol::Udp) => udp = udp + 1,
            None => {},
        }
        match packet.application_layer {
            Some(ApplicationProtocol::Dns) => dns = dns + 1,
            Some(ApplicationProtocol::Http) => http = http + 1,
            None => {},
        }
        let ghost ips = ip_occurrences(before);
        let ghost src = text_rank(packet.source_ip@);
        let ghost dst = text_rank(packet.destination_ip@);
        proof {
            lemma_occurrences_bounded(ips, src);
            lemma_frequencies_push(ips, src);
            lemma_occurrences_bounded(ips.push(src), dst);
            lemma_frequencies_push(ips.push(src), dst);
        }
        ip_freq.record(packet.source_ip.clone());
        ip_freq.record(packet.destination_ip.clone());
        let ghost ports = port_occurrences(before);
        let ghost sport = port_rank(packet.source_port);
        let ghost dport = port_rank(packet.destination_port);
        proof {
            lemma_occurrences_bounded(ports, sport);
            lemma_frequencies_push(ports, sport);
            lemma_occurrences_bounded(ports.push(sport), dport);
            lemma_frequencies_push(ports.push(sport), dport);
        }
        port_freq.record(packet.source_port);
        port_freq.record(packet.destination_port);
        i = i + 1;
    }
    assert(recs.subrange(0, len as int) =~= recs);
    let mut by_protocol: Vec<(ProtocolKey, u32)> = Vec::new();
    if ipv4 > 0 {
        by_protocol.push((ProtocolKey::Internet(InternetProtocol::IPv4), ipv4));
    }
    if tcp > 0 {
        by_protocol.push((ProtocolKey::Transport(TransportProtocol::Tcp), tcp));
    }
    if udp > 0 {
        by_protocol.push((ProtocolKey::Transport(TransportProtocol::Udp), udp));
    }
    if dns > 0 {
        by_protocol.push((ProtocolKey::Application(ApplicationProtocol::Dns), dns));
    }
    if http > 0 {
        by_protocol.push((ProtocolKey::Application(ApplicationProtocol::Http), http));
    }
    assert(by_protocol@ =~= protocol_table(recs));
    let top_10_ips = top_n_by_frequency(&ip_freq, TOP_N);
    let top_10_ports = top_n_by_frequency(&port_freq, TOP_N);
    NetworkStats {
        total_packets: len,
        total_bytes_packet,
        by_protocol,
        top_10_ips,
        top_10_ports,
    }
}

} // verus!
