use crate::model::{ApplicationProtocol, InternetProtocol, PacketData, TransportProtocol};
use vstd::prelude::*;

verus! {

pub const ETHERTYPE_IPV4: u16 = 0x0800;

pub const IP_VERSION_IPV4: u8 = 4;

pub const TRANSPORT_TCP: u8 = 0x06;

pub const TRANSPORT_UDP: u8 = 0x11;

pub const PORT_HTTP: u16 = 80;

pub const PORT_HTTPS: u16 = 443;

pub const PORT_DNS: u16 = 53;

/// Offset of the IPv4 header inside an Ethernet II frame.
pub const IP_OFFSET: usize = 14;

/// Shortest frame that holds an Ethernet header and both IPv4 addresses.
pub const MIN_FRAME_LEN: usize = 34;

/// A big-endian 16-bit value.
pub open spec fn be16(hi: u8, lo: u8) -> int {
    hi as int * 256 + lo as int
}

/// Start of the transport header: the IPv4 header length is the low nibble of
/// its first byte, in 32-bit words.
pub open spec fn transport_offset(b: Seq<u8>) -> int {
    IP_OFFSET as int + (b[IP_OFFSET as int] as int % 16) * 4
}

pub open spec fn frame_protocol(b: Seq<u8>) -> u8 {
    b[IP_OFFSET as int + 9]
}

pub open spec fn frame_source_port(b: Seq<u8>) -> u16 {
    be16(b[transport_offset(b)], b[transport_offset(b) + 1]) as u16
}

pub open spec fn frame_destination_port(b: Seq<u8>) -> u16 {
    be16(b[transport_offset(b) + 2], b[transport_offset(b) + 3]) as u16
}

/// The frames that decode to a record: IPv4 over Ethernet II, carrying TCP or
/// UDP, long enough to hold both ports.
pub open spec fn frame_accepted(b: Seq<u8>) -> bool {
    &&& b.len() >= MIN_FRAME_LEN
    &&& be16(b[12], b[13]) == ETHERTYPE_IPV4
    &&& b[IP_OFFSET as int] as int / 16 == IP_VERSION_IPV4
    &&& b.len() >= transport_offset(b) + 4
    &&& (frame_protocol(b) == TRANSPORT_TCP || frame_protocol(b) == TRANSPORT_UDP)
}

pub open spec fn transport_of(protocol: u8) -> Option<TransportProtocol> {
    if protocol == TRANSPORT_TCP {
        Some(TransportProtocol::Tcp)
    } else if protocol == TRANSPORT_UDP {
        Some(TransportProtocol::Udp)
    } else {
        None
    }
}

/// Application protocol guessed from the transport and the destination port.
pub open spec fn application_of(
    transport: TransportProtocol,
    destination_port: u16,
) -> Option<ApplicationProtocol> {
    match transport {
        TransportProtocol::Tcp => if destination_port == PORT_HTTP || destination_port
            == PORT_HTTPS {
            Some(ApplicationProtocol::Http)
        } else if destination_port == PORT_DNS {
            Some(ApplicationProtocol::Dns)
        } else {
            None
        },
        TransportProtocol::Udp => if destination_port == PORT_DNS {
            Some(ApplicationProtocol::Dns)
        } else {
            None
        },
    }
}

pub open spec fn digit_char(d: nat) -> char {
    if d == 0 {
        '0'
    } else if d == 1 {
        '1'
    } else if d == 2 {
        '2'
    } else if d == 3 {
        '3'
    } else if d == 4 {
        '4'
    } else if d == 5 {
        '5'
    } else if d == 6 {
        '6'
    } else if d == 7 {
        '7'
    } else if d == 8 {
        '8'
    } else {
        '9'
    }
}

/// Decimal digits of `n`, without leading zeros.
pub open spec fn decimal(n: nat) -> Seq<char>
    decreases n,
{
    if n < 10 {
        seq![digit_char(n)]
    } else {
        decimal(n / 10) + seq![digit_char(n % 10)]
    }
}

/// Dotted-quad notation of an IPv4 address.
pub open spec fn dotted_quad(a: u8, b: u8, c: u8, d: u8) -> Seq<char> {
    decimal(a as nat) + seq!['.'] + decimal(b as nat) + seq!['.'] + decimal(c as nat) + seq!['.']
        + decimal(d as nat)
}

/// The address written at `at..at + 4` of a frame.
pub open spec fn frame_address(b: Seq<u8>, at: int) -> Seq<char> {
    dotted_quad(b[at], b[at + 1], b[at + 2], b[at + 3])
}

/// `p` is the record that the frame `b` decodes to.
pub open spec fn decodes_to(b: Seq<u8>, p: PacketData) -> bool {
    &&& frame_accepted(b)
    &&& p.internet_layer == InternetProtocol::IPv4
    &&& p.transport_layer == transport_of(frame_protocol(b))
    &&& p.application_layer == application_of(
        transport_of(frame_protocol(b))->0,
        frame_destination_port(b),
    )
    &&& p.source_ip@ == frame_address(b, IP_OFFSET as int + 12)
    &&& p.destination_ip@ == frame_address(b, IP_OFFSET as int + 16)
    &&& p.source_port == frame_source_port(b)
    &&& p.destination_port == frame_destination_port(b)
    &&& p.packet_length == b.len()
}

/// The one-character text of a decimal digit.
fn digit_str(d: u8) -> (r: &'static str)
    requires
        d < 10,
    ensures
        r@ == seq![digit_char(d as nat)],
{
    proof {
        reveal_strlit("0");
        reveal_strlit("1");
        reveal_strlit("2");
        reveal_strlit("3");
        reveal_strlit("4");
        reveal_strlit("5");
        reveal_strlit("6");
        reveal_strlit("7");
        reveal_strlit("8");
        reveal_strlit("9");
    }
    if d == 0 {
        "0"
    } else if d == 1 {
        "1"
    } else if d == 2 {
        "2"
    } else if d == 3 {
        "3"
    } else if d == 4 {
        "4"
    } else if d == 5 {
        "5"
    } else if d == 6 {
        "6"
    } else if d == 7 {
        "7"
    } else if d == 8 {
        "8"
    } else {
        "9"
    }
}

/// Appends the decimal digits of `n`, without leading zeros.
fn append_decimal(s: &mut String, n: u8)
    ensures
        final(s)@ == old(s)@ + decimal(n as nat),
{
    let ghost start = s@;
    let ones = n % 10;
    let tens = (n / 10) % 10;
    let hundreds = n / 100;
    if n >= 100 {
        s.append(digit_str(hundreds));
    }
    if n >= 10 {
        s.append(digit_str(tens));
    }
    s.append(digit_str(ones));
    proof {
        let m = n as nat;
        assert(m / 10 / 10 == m / 100) by (nonlinear_arith)
            requires
                m < 256,
        ;
        if m >= 100 {
            assert(decimal(m / 10) == decimal(m / 100) + seq![digit_char((m / 10) % 10)]);
            assert(decimal(m / 100) == seq![digit_char(m / 100)]);
            assert(s@ =~= start + decimal(m));
        } else if m >= 10 {
            assert(decimal(m / 10) == seq![digit_char(m / 10)]);
            assert(s@ =~= start + decimal(m));
        } else {
            assert(s@ =~= start + decimal(m));
        }
    }
}

/// The dotted-quad text of an IPv4 address.
pub fn dotted_quad_string(a: u8, b: u8, c: u8, d: u8) -> (r: String)
    ensures
        r@ == dotted_quad(a, b, c, d),
{
    proof {
        reveal_strlit(".");
    }
    let mut r = String::new();
    append_decimal(&mut r, a);
    r.append(".");
    append_decimal(&mut r, b);
    r.append(".");
    append_decimal(&mut r, c);
    r.append(".");
    append_decimal(&mut r, d);
    assert(r@ =~= dotted_quad(a, b, c, d));
    r
}

/// Decodes one Ethernet frame. Frames that are too short, not IPv4, or carry
/// neither TCP nor UDP give `None`.
pub fn packet_mapper(packet_data: &[u8]) -> (r: Option<PacketData>)
    ensures
        r is None <==> !frame_accepted(packet_data@),
        r matches Some(p) ==> decodes_to(packet_data@, p),
        r matches Some(p) ==> p.packet_length == packet_data@.len(),
        r matches Some(p) ==> p.layers_consistent(),
{
    let b = packet_data;
    let packet_len: usize = b.len();
    if packet_len < MIN_FRAME_LEN {
        return None;
    }
    let ethernet: u16 = (b[12] as u16) * 256 + b[13] as u16;
    if ethernet != ETHERTYPE_IPV4 {
        return None;
    }
    let version: u8 = b[IP_OFFSET] / 16;
    if version != IP_VERSION_IPV4 {
        return None;
    }
    let ihl: u8 = (b[IP_OFFSET] % 16) * 4;
    let transport_offset: usize = IP_OFFSET + ihl as usize;
    if packet_len < transport_offset + 4 {
        return None;
    }
    let protocol: u8 = b[IP_OFFSET + 9];
    let source_port: u16 = (b[transport_offset] as u16) * 256 + b[transport_offset + 1] as u16;
    let destination_port: u16 = (b[transport_offset + 2] as u16) * 256
        + b[transport_offset + 3] as u16;
    let (transport_layer, application_layer) = if protocol == TRANSPORT_TCP {
        let application = if destination_port == PORT_HTTP || destination_port == PORT_HTTPS {
            Some(ApplicationProtocol::Http)
        } else if destination_port == PORT_DNS {
            Some(ApplicationProtocol::Dns)
        } else {
            None
        };
        (Some(TransportProtocol::Tcp), application)
    } else if protocol == TRANSPORT_UDP {
        let application = if destination_port == PORT_DNS {
            Some(ApplicationProtocol::Dns)
        } else {
            None
        };
        (Some(TransportProtocol::Udp), application)
    } else {
        return None;
    };
    let source_ip = dotted_quad_string(
        b[IP_OFFSET + 12],
        b[IP_OFFSET + 13],
        b[IP_OFFSET + 14],
        b[IP_OFFSET + 15],
    );
    let destination_ip = dotted_quad_string(
        b[IP_OFFSET + 16],
        b[IP_OFFSET + 17],
        b[IP_OFFSET + 18],
        b[IP_OFFSET + 19],
    );
    Some(
        PacketData {
            internet_layer: InternetProtocol::IPv4,
            transport_layer,
            application_layer,
            source_ip,
            destination_ip,
            source_port,
            destination_port,
            packet_length: packet_len,
        },
    )
}

} // verus!
