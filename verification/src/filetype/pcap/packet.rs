//! Network packets: what their bytes say, and how they are shown.

use crate::net;
use crate::text;
use crate::time;
use crate::time::Timestamp;
use vstd::prelude::*;

verus! {

/// What a TCP header says of a segment.
#[derive(Debug, Clone, Copy, PartialEq, Eq, Structural)]
pub struct TcpDetails {
    pub seq: u32,
    pub ack: u32,
    pub flags: u8,
    pub window: u16,
    pub payload_len: u32,
}

/// A parsed network packet, for display.
#[derive(Debug)]
pub struct PacketInfo {
    pub timestamp: Timestamp,
    pub src_addr: String,
    pub src_port: Option<u16>,
    pub dst_addr: String,
    pub dst_port: Option<u16>,
    /// The Ethernet source address, such as `"aa:bb:cc:dd:ee:ff"`, where it is known.
    pub src_mac: Option<String>,
    /// The Ethernet destination address, where it is known.
    pub dst_mac: Option<String>,
    pub protocol: String,
    pub vlan_id: Option<u16>,
    pub length: u32,
    pub info: String,
    pub tcp_details: Option<TcpDetails>,
    pub is_abnormal: bool,
    pub transport_payload: Option<Vec<u8>>,
}

/// A packet with its texts and its payload as sequences.
pub struct PacketView {
    pub timestamp: Timestamp,
    pub src_addr: Seq<char>,
    pub src_port: Option<u16>,
    pub dst_addr: Seq<char>,
    pub dst_port: Option<u16>,
    pub src_mac: Option<Seq<char>>,
    pub dst_mac: Option<Seq<char>>,
    pub protocol: Seq<char>,
    pub vlan_id: Option<u16>,
    pub length: u32,
    pub info: Seq<char>,
    pub tcp_details: Option<TcpDetails>,
    pub is_abnormal: bool,
    pub transport_payload: Option<Seq<u8>>,
}

/// The bytes of a payload that may be missing.
pub open spec fn opt_bytes(o: Option<Vec<u8>>) -> Option<Seq<u8>> {
    match o {
        Some(v) => Some(v@),
        None => None,
    }
}

impl View for PacketInfo {
    type V = PacketView;

    open spec fn view(&self) -> PacketView {
        PacketView {
            timestamp: self.timestamp,
            src_addr: self.src_addr@,
            src_port: self.src_port,
            dst_addr: self.dst_addr@,
            dst_port: self.dst_port,
            src_mac: text::opt_text(self.src_mac),
            dst_mac: text::opt_text(self.dst_mac),
            protocol: self.protocol@,
            vlan_id: self.vlan_id,
            length: self.length,
            info: self.info@,
            tcp_details: self.tcp_details,
            is_abnormal: self.is_abnormal,
            transport_payload: opt_bytes(self.transport_payload),
        }
    }
}

/// A view of a parsed value that may be missing.
pub open spec fn opt_packet(o: Option<PacketInfo>) -> Option<PacketView> {
    match o {
        Some(p) => Some(p@),
        None => None,
    }
}

/// What the header above the IP layer says.
pub struct TransportInfo {
    pub protocol: String,
    pub src_port: Option<u16>,
    pub dst_port: Option<u16>,
    pub info: String,
    pub tcp_details: Option<TcpDetails>,
    pub payload: Option<Vec<u8>>,
}

/// What the header above the IP layer says, with its texts as sequences.
pub struct TransportView {
    pub protocol: Seq<char>,
    pub src_port: Option<u16>,
    pub dst_port: Option<u16>,
    pub info: Seq<char>,
    pub tcp_details: Option<TcpDetails>,
    pub payload: Option<Seq<u8>>,
}

impl View for TransportInfo {
    type V = TransportView;

    open spec fn view(&self) -> TransportView {
        TransportView {
            protocol: self.protocol@,
            src_port: self.src_port,
            dst_port: self.dst_port,
            info: self.info@,
            tcp_details: self.tcp_details,
            payload: opt_bytes(self.payload),
        }
    }
}

/// The bytes of a header that starts at `from`, where there are any.
pub open spec fn bytes_from(d: Seq<u8>, from: int) -> Option<Seq<u8>> {
    if d.len() > from {
        Some(d.subrange(from, d.len() as int))
    } else {
        None
    }
}

/// A copy of the bytes from `from` on, where there are any.
fn copy_from(d: &[u8], from: usize) -> (r: Option<Vec<u8>>)
    ensures
        opt_bytes(r) == bytes_from(d@, from as int),
{
    if d.len() > from {
        let mut v: Vec<u8> = Vec::new();
        let mut i: usize = from;
        while i < d.len()
            invariant
                from <= i <= d@.len(),
                v@ == d@.subrange(from as int, i as int),
            decreases d.len() - i,
        {
            v.push(d[i]);
            assert(v@ =~= d@.subrange(from as int, i + 1));
            i += 1;
        }
        Some(v)
    } else {
        None
    }
}

/// A header of which only the protocol is known.
pub open spec fn bare(protocol: Seq<char>, info: Seq<char>) -> TransportView {
    TransportView {
        protocol,
        src_port: None,
        dst_port: None,
        info,
        tcp_details: None,
        payload: None,
    }
}

fn bare_transport(protocol: String, info: String) -> (r: TransportInfo)
    ensures
        r@ == bare(protocol@, info@),
{
    TransportInfo {
        protocol,
        src_port: None,
        dst_port: None,
        info,
        tcp_details: None,
        payload: None,
    }
}

/// What a TCP segment says: ports, sequence numbers, flags, window and payload.
pub open spec fn tcp_segment(d: Seq<u8>) -> TransportView {
    if d.len() < 20 {
        bare("TCP"@, Seq::empty())
    } else {
        let offset = ((d[12] >> 4) & 0x0f) as int * 4;
        TransportView {
            protocol: "TCP"@,
            src_port: Some(net::be16(d[0], d[1]) as u16),
            dst_port: Some(net::be16(d[2], d[3]) as u16),
            info: Seq::empty(),
            tcp_details: Some(
                TcpDetails {
                    seq: net::be32(d[4], d[5], d[6], d[7]) as u32,
                    ack: net::be32(d[8], d[9], d[10], d[11]) as u32,
                    flags: d[13],
                    window: net::be16(d[14], d[15]) as u16,
                    payload_len: if d.len() > offset {
                        (d.len() - offset) as u32
                    } else {
                        0
                    },
                },
            ),
            payload: bytes_from(d, offset),
        }
    }
}

/// Reads a TCP header.
pub fn parse_tcp_info(data: &[u8]) -> (r: TransportInfo)
    ensures
        r@ == tcp_segment(data@),
{
    if data.len() < 20 {
        return bare_transport(String::from_str("TCP"), String::new());
    }
    let src_port: u16 = net::read_be16(data[0], data[1]);
    let dst_port: u16 = net::read_be16(data[2], data[3]);
    let seq: u32 = net::read_be32(data[4], data[5], data[6], data[7]);
    let ack: u32 = net::read_be32(data[8], data[9], data[10], data[11]);
    let b: u8 = data[12];
    assert((b >> 4) & 0x0f <= 15) by (bit_vector);
    let data_offset: usize = ((b >> 4) & 0x0f) as usize * 4;
    let flags: u8 = data[13];
    let window: u16 = net::read_be16(data[14], data[15]);
    let payload_len: u32 = if data.len() > data_offset {
        (data.len() - data_offset) as u32
    } else {
        0
    };
    TransportInfo {
        protocol: String::from_str("TCP"),
        src_port: Some(src_port),
        dst_port: Some(dst_port),
        info: String::new(),
        tcp_details: Some(TcpDetails { seq, ack, flags, window, payload_len }),
        payload: copy_from(data, data_offset),
    }
}

/// What a UDP datagram says: ports and payload.
pub open spec fn udp_datagram(d: Seq<u8>) -> TransportView {
    if d.len() < 8 {
        bare("UDP"@, Seq::empty())
    } else {
        TransportView {
            protocol: "UDP"@,
            src_port: Some(net::be16(d[0], d[1]) as u16),
            dst_port: Some(net::be16(d[2], d[3]) as u16),
            info: Seq::empty(),
            tcp_details: None,
            payload: bytes_from(d, 8),
        }
    }
}

/// Reads a UDP header.
pub fn parse_udp_info(data: &[u8]) -> (r: TransportInfo)
    ensures
        r@ == udp_datagram(data@),
{
    if data.len() < 8 {
        return bare_transport(String::from_str("UDP"), String::new());
    }
    TransportInfo {
        protocol: String::from_str("UDP"),
        src_port: Some(net::read_be16(data[0], data[1])),
        dst_port: Some(net::read_be16(data[2], data[3])),
        info: String::new(),
        tcp_details: None,
        payload: copy_from(data, 8),
    }
}

/// What an ICMP message is about.
pub open spec fn control_message_text(d: Seq<u8>) -> Seq<char> {
    if d.len() < 2 {
        Seq::empty()
    } else if d[0] == 0 {
        "Echo Reply"@
    } else if d[0] == 8 {
        "Echo Request"@
    } else if d[0] == 3 && d[1] == 0 {
        "Dest Unreachable (Net)"@
    } else if d[0] == 3 && d[1] == 1 {
        "Dest Unreachable (Host)"@
    } else if d[0] == 3 && d[1] == 3 {
        "Dest Unreachable (Port)"@
    } else if d[0] == 11 {
        "Time Exceeded"@
    } else {
        "Type="@ + text::dec(d[0] as nat) + " Code="@ + text::dec(d[1] as nat)
    }
}

/// Describes an ICMP message.
pub fn parse_control_message(data: &[u8]) -> (r: String)
    ensures
        r@ == control_message_text(data@),
{
    if data.len() < 2 {
        return String::new();
    }
    match (data[0], data[1]) {
        (0, _) => String::from_str("Echo Reply"),
        (8, _) => String::from_str("Echo Request"),
        (3, 0) => String::from_str("Dest Unreachable (Net)"),
        (3, 1) => String::from_str("Dest Unreachable (Host)"),
        (3, 3) => String::from_str("Dest Unreachable (Port)"),
        (11, _) => String::from_str("Time Exceeded"),
        (t, c) => {
            let mut s = String::from_str("Type=");
            text::push_dec(&mut s, t as u64);
            s.append(" Code=");
            text::push_dec(&mut s, c as u64);
            s
        },
    }
}

/// A packet whose transport header is known.
pub open spec fn ip_packet(
    timestamp: Timestamp,
    src_addr: Seq<char>,
    dst_addr: Seq<char>,
    vlan_id: Option<u16>,
    length: u32,
    t: TransportView,
) -> PacketView {
    PacketView {
        timestamp,
        src_addr,
        src_port: t.src_port,
        dst_addr,
        dst_port: t.dst_port,
        src_mac: None,
        dst_mac: None,
        protocol: t.protocol,
        vlan_id,
        length,
        info: t.info,
        tcp_details: t.tcp_details,
        is_abnormal: t.tcp_details matches Some(tcp) && tcp.flags & 0x04 != 0,
        transport_payload: t.payload,
    }
}

fn ip_packet_info(
    timestamp: Timestamp,
    src_addr: String,
    dst_addr: String,
    vlan_id: Option<u16>,
    length: u32,
    t: TransportInfo,
) -> (r: PacketInfo)
    ensures
        r@ == ip_packet(timestamp, src_addr@, dst_addr@, vlan_id, length, t@),
{
    let is_abnormal: bool = match &t.tcp_details {
        Some(tcp) => tcp.flags & 0x04 != 0,
        None => false,
    };
    PacketInfo {
        timestamp,
        src_addr,
        src_port: t.src_port,
        dst_addr,
        dst_port: t.dst_port,
        src_mac: None,
        dst_mac: None,
        protocol: t.protocol,
        vlan_id,
        length,
        info: t.info,
        tcp_details: t.tcp_details,
        is_abnormal,
        transport_payload: t.payload,
    }
}

/// What the header above an IPv4 header says, by the protocol number.
pub open spec fn ipv4_transport(protocol: u8, d: Seq<u8>) -> TransportView {
    if protocol == 6 {
        tcp_segment(d)
    } else if protocol == 17 {
        udp_datagram(d)
    } else if protocol == 1 {
        bare("ICMP"@, control_message_text(d))
    } else {
        bare("IP/"@ + text::dec(protocol as nat), Seq::empty())
    }
}

/// What an IPv4 packet says. Short ones, and ones shorter than their own header
/// length, say nothing.
pub open spec fn ipv4_packet(d: Seq<u8>, timestamp: Timestamp, vlan_id: Option<u16>) -> Option<
    PacketView,
> {
    let header_len = (d[0] & 0x0f) as int * 4;
    if d.len() < 20 || d.len() < header_len {
        None
    } else {
        Some(
            ip_packet(
                timestamp,
                net::ipv4_text(d[12], d[13], d[14], d[15]),
                net::ipv4_text(d[16], d[17], d[18], d[19]),
                vlan_id,
                net::be16(d[2], d[3]) as u32,
                ipv4_transport(d[9], d.subrange(header_len, d.len() as int)),
            ),
        )
    }
}

/// Reads an IPv4 packet.
pub fn parse_ipv4_packet(data: &[u8], timestamp: Timestamp, vlan_id: Option<u16>) -> (r: Option<
    PacketInfo,
>)
    ensures
        opt_packet(r) == ipv4_packet(data@, timestamp, vlan_id),
{
    if data.len() < 20 {
        return None;
    }
    let b: u8 = data[0];
    assert(b & 0x0f <= 15) by (bit_vector);
    let ihl: usize = (b & 0x0f) as usize * 4;
    if data.len() < ihl {
        return None;
    }
    let protocol: u8 = data[9];
    let src_ip = net::format_ipv4(data[12], data[13], data[14], data[15]);
    let dst_ip = net::format_ipv4(data[16], data[17], data[18], data[19]);
    let total_len: u16 = net::read_be16(data[2], data[3]);
    let transport_data = &data[ihl..data.len()];
    let transport = match protocol {
        6 => parse_tcp_info(transport_data),
        17 => parse_udp_info(transport_data),
        1 => bare_transport(String::from_str("ICMP"), parse_control_message(transport_data)),
        _ => {
            let mut name = String::from_str("IP/");
            text::push_dec(&mut name, protocol as u64);
            bare_transport(name, String::new())
        },
    };
    Some(ip_packet_info(timestamp, src_ip, dst_ip, vlan_id, total_len as u32, transport))
}

/// The text of an IPv6 address with all its groups.
pub open spec fn ipv6_groups(b: Seq<u8>) -> Seq<char> {
    if b.len() >= 16 {
        net::groups_text(b, 0, 8)
    } else {
        "::"@
    }
}

/// Writes an IPv6 address with all its groups.
pub fn format_ipv6(bytes: &[u8]) -> (r: String)
    ensures
        r@ == ipv6_groups(bytes@),
{
    if bytes.len() >= 16 {
        net::format_groups(bytes, 0, 8)
    } else {
        String::from_str("::")
    }
}

/// What the header above an IPv6 header says, by the number of the next header.
pub open spec fn ipv6_transport(next_header: u8, d: Seq<u8>) -> TransportView {
    if next_header == 6 {
        tcp_segment(d)
    } else if next_header == 17 {
        udp_datagram(d)
    } else if next_header == 58 {
        bare("ICMPv6"@, Seq::empty())
    } else {
        bare("IPv6/"@ + text::dec(next_header as nat), Seq::empty())
    }
}

/// What an IPv6 packet says. Short ones say nothing.
pub open spec fn ipv6_packet(d: Seq<u8>, timestamp: Timestamp, vlan_id: Option<u16>) -> Option<
    PacketView,
> {
    if d.len() < 40 {
        None
    } else {
        Some(
            ip_packet(
                timestamp,
                ipv6_groups(d.subrange(8, 24)),
                ipv6_groups(d.subrange(24, 40)),
                vlan_id,
                (net::be16(d[4], d[5]) + 40) as u32,
                ipv6_transport(d[6], d.subrange(40, d.len() as int)),
            ),
        )
    }
}

/// Reads an IPv6 packet.
pub fn parse_ipv6_packet(data: &[u8], timestamp: Timestamp, vlan_id: Option<u16>) -> (r: Option<
    PacketInfo,
>)
    ensures
        opt_packet(r) == ipv6_packet(data@, timestamp, vlan_id),
{
    if data.len() < 40 {
        return None;
    }
    let next_header: u8 = data[6];
    let payload_len: u16 = net::read_be16(data[4], data[5]);
    let src_ip = format_ipv6(&data[8..24]);
    let dst_ip = format_ipv6(&data[24..40]);
    let transport_data = &data[40..data.len()];
    let transport = match next_header {
        6 => parse_tcp_info(transport_data),
        17 => parse_udp_info(transport_data),
        58 => bare_transport(String::from_str("ICMPv6"), String::new()),
        _ => {
            let mut name = String::from_str("IPv6/");
            text::push_dec(&mut name, next_header as u64);
            bare_transport(name, String::new())
        },
    };
    Some(ip_packet_info(timestamp, src_ip, dst_ip, vlan_id, payload_len as u32 + 40, transport))
}

/// The text of an Ethernet address.
pub open spec fn mac_text(b: Seq<u8>) -> Seq<char> {
    if b.len() >= 6 {
        text::hex_fixed(b[0] as nat, 2) + ":"@ + text::hex_fixed(b[1] as nat, 2) + ":"@
            + text::hex_fixed(b[2] as nat, 2) + ":"@ + text::hex_fixed(b[3] as nat, 2) + ":"@
            + text::hex_fixed(b[4] as nat, 2) + ":"@ + text::hex_fixed(b[5] as nat, 2)
    } else {
        "??:??:??:??:??:??"@
    }
}

/// Writes an Ethernet address.
pub fn format_mac(bytes: &[u8]) -> (r: String)
    ensures
        r@ == mac_text(bytes@),
{
    if bytes.len() >= 6 {
        let mut s = String::new();
        text::push_hex_fixed(&mut s, bytes[0] as u64, 2);
        assert(s@ =~= text::hex_fixed(bytes@[0] as nat, 2));
        s.append(":");
        text::push_hex_fixed(&mut s, bytes[1] as u64, 2);
        s.append(":");
        text::push_hex_fixed(&mut s, bytes[2] as u64, 2);
        s.append(":");
        text::push_hex_fixed(&mut s, bytes[3] as u64, 2);
        s.append(":");
        text::push_hex_fixed(&mut s, bytes[4] as u64, 2);
        s.append(":");
        text::push_hex_fixed(&mut s, bytes[5] as u64, 2);
        s
    } else {
        String::from_str("??:??:??:??:??:??")
    }
}

/// Whether an Ethernet frame carries a tag of a virtual network.
pub open spec fn has_vlan_tag(d: Seq<u8>) -> bool {
    net::be16(d[12], d[13]) == 0x8100 && d.len() >= 18
}

/// The type of an Ethernet frame, behind its tag where it has one.
pub open spec fn frame_type(d: Seq<u8>) -> int {
    if has_vlan_tag(d) {
        net::be16(d[16], d[17])
    } else {
        net::be16(d[12], d[13])
    }
}

/// The number of the virtual network of an Ethernet frame.
pub open spec fn frame_vlan(d: Seq<u8>) -> Option<u16> {
    if has_vlan_tag(d) {
        Some((net::be16(d[14], d[15]) as u16) & 0x0fff)
    } else {
        None
    }
}

/// What an Ethernet frame carries.
pub open spec fn frame_payload(d: Seq<u8>) -> Seq<u8> {
    d.subrange(if has_vlan_tag(d) {
        18
    } else {
        14
    }, d.len() as int)
}

/// An IP packet with the Ethernet addresses of its frame.
pub open spec fn with_macs(p: Option<PacketView>, d: Seq<u8>) -> Option<PacketView> {
    match p {
        Some(p) => Some(
            PacketView {
                src_mac: Some(mac_text(d.subrange(6, 12))),
                dst_mac: Some(mac_text(d.subrange(0, 6))),
                ..p
            },
        ),
        None => None,
    }
}

/// A frame that carries no IP packet: it is shown between its Ethernet addresses.
pub open spec fn link_packet(
    d: Seq<u8>,
    timestamp: Timestamp,
    protocol: Seq<char>,
    info: Seq<char>,
) -> PacketView {
    PacketView {
        timestamp,
        src_addr: mac_text(d.subrange(6, 12)),
        src_port: None,
        dst_addr: mac_text(d.subrange(0, 6)),
        dst_port: None,
        src_mac: None,
        dst_mac: None,
        protocol,
        vlan_id: frame_vlan(d),
        length: d.len() as u32,
        info,
        tcp_details: None,
        is_abnormal: false,
        transport_payload: None,
    }
}

/// What an Ethernet frame says. One without a whole header says nothing, nor does one
/// whose IP packet says nothing.
pub open spec fn frame_packet(d: Seq<u8>, timestamp: Timestamp) -> Option<PacketView> {
    if d.len() < 14 {
        None
    } else if frame_type(d) == 0x0800 {
        with_macs(ipv4_packet(frame_payload(d), timestamp, frame_vlan(d)), d)
    } else if frame_type(d) == 0x86dd {
        with_macs(ipv6_packet(frame_payload(d), timestamp, frame_vlan(d)), d)
    } else if frame_type(d) == 0x0806 {
        Some(link_packet(d, timestamp, "ARP"@, "ARP Request/Reply"@))
    } else {
        Some(
            link_packet(
                d,
                timestamp,
                "0x"@ + text::hex_fixed(frame_type(d) as nat, 4),
                Seq::empty(),
            ),
        )
    }
}

/// Reads an Ethernet frame.
pub fn parse_packet_data(data: &[u8], timestamp: Timestamp) -> (r: Option<PacketInfo>)
    ensures
        opt_packet(r) == frame_packet(data@, timestamp),
{
    if data.len() < 14 {
        return None;
    }
    let src_mac = format_mac(&data[6..12]);
    let dst_mac = format_mac(&data[0..6]);
    let mut ethertype: u16 = net::read_be16(data[12], data[13]);
    let mut payload_offset: usize = 14;
    let mut vlan_id: Option<u16> = None;
    if ethertype == 0x8100 && data.len() >= 18 {
        let tci: u16 = net::read_be16(data[14], data[15]);
        vlan_id = Some(tci & 0x0fff);
        ethertype = net::read_be16(data[16], data[17]);
        payload_offset = 18;
    }
    let payload = &data[payload_offset..data.len()];
    assert(payload@ == frame_payload(data@));
    match ethertype {
        0x0800 => {
            let mut pi = parse_ipv4_packet(payload, timestamp, vlan_id)?;
            pi.src_mac = Some(src_mac);
            pi.dst_mac = Some(dst_mac);
            Some(pi)
        },
        0x86dd => {
            let mut pi = parse_ipv6_packet(payload, timestamp, vlan_id)?;
            pi.src_mac = Some(src_mac);
            pi.dst_mac = Some(dst_mac);
            Some(pi)
        },
        0x0806 => Some(
            PacketInfo {
                timestamp,
                // The addresses of an ARP message are the Ethernet addresses themselves.
                src_addr: src_mac,
                src_port: None,
                dst_addr: dst_mac,
                dst_port: None,
                src_mac: None,
                dst_mac: None,
                protocol: String::from_str("ARP"),
                vlan_id,
                length: data.len() as u32,
                info: String::from_str("ARP Request/Reply"),
                tcp_details: None,
                is_abnormal: false,
                transport_payload: None,
            },
        ),
        _ => {
            let mut protocol = String::from_str("0x");
            text::push_hex_fixed(&mut protocol, ethertype as u64, 4);
            Some(
                PacketInfo {
                    timestamp,
                    src_addr: src_mac,
                    src_port: None,
                    dst_addr: dst_mac,
                    dst_port: None,
                    src_mac: None,
                    dst_mac: None,
                    protocol,
                    vlan_id,
                    length: data.len() as u32,
                    info: String::new(),
                    tcp_details: None,
                    is_abnormal: false,
                    transport_payload: None,
                },
            )
        },
    }
}

/// A list with one name where a flag is set, else without any.
pub open spec fn flag_name(flags: u8, mask: u8, name: Seq<char>) -> Seq<Seq<char>> {
    if flags & mask != 0 {
        seq![name]
    } else {
        Seq::empty()
    }
}

/// The names of the TCP flags that are set, in the order in which they are shown.
pub open spec fn flag_names(flags: u8) -> Seq<Seq<char>> {
    flag_name(flags, 0x02, "SYN"@) + flag_name(flags, 0x10, "ACK"@) + flag_name(
        flags,
        0x01,
        "FIN"@,
    ) + flag_name(flags, 0x04, "RST"@) + flag_name(flags, 0x08, "PSH"@) + flag_name(
        flags,
        0x20,
        "URG"@,
    )
}

/// The TCP flags as they are shown.
pub open spec fn flags_text(flags: u8) -> Seq<char> {
    "["@ + text::join_spec(flag_names(flags), ","@) + "]"@
}

fn push_flag(names: &mut Vec<String>, flags: u8, mask: u8, name: &str)
    ensures
        text::texts(final(names)@) == text::texts(old(names)@) + flag_name(flags, mask, name@),
{
    if flags & mask != 0 {
        names.push(String::from_str(name));
    }
    assert(text::texts(names@) =~= text::texts(old(names)@) + flag_name(flags, mask, name@));
}

/// Writes the TCP flags that are set.
pub fn format_tcp_flags(flags: u8) -> (r: String)
    ensures
        r@ == flags_text(flags),
{
    let mut names: Vec<String> = Vec::new();
    assert(text::texts(names@) =~= Seq::empty());
    push_flag(&mut names, flags, 0x02, "SYN");
    assert(text::texts(names@) =~= flag_name(flags, 0x02, "SYN"@));
    push_flag(&mut names, flags, 0x10, "ACK");
    push_flag(&mut names, flags, 0x01, "FIN");
    push_flag(&mut names, flags, 0x04, "RST");
    push_flag(&mut names, flags, 0x08, "PSH");
    push_flag(&mut names, flags, 0x20, "URG");
    let mut s = String::from_str("[");
    s.append(text::join(&names, ",").as_str());
    s.append("]");
    s
}

/// An address with its port, where it has one.
pub open spec fn endpoint_text(addr: Seq<char>, port: Option<u16>) -> Seq<char> {
    match port {
        Some(p) => addr + ":"@ + text::dec(p as nat),
        None => addr,
    }
}

fn format_endpoint(addr: &String, port: Option<u16>) -> (r: String)
    ensures
        r@ == endpoint_text(addr@, port),
{
    let mut s = addr.clone();
    if let Some(p) = port {
        s.append(":");
        text::push_dec(&mut s, p as u64);
    }
    s
}

/// What TCP says of a segment: flags, numbers, window and length.
pub open spec fn tcp_text(t: TcpDetails) -> Seq<char> {
    let start = flags_text(t.flags) + " Seq="@ + text::dec(t.seq as nat);
    let ack = if t.flags & 0x10 != 0 {
        start + " Ack="@ + text::dec(t.ack as nat)
    } else {
        start
    };
    let win = ack + " Win="@ + text::dec(t.window as nat);
    if t.payload_len > 0 {
        win + " Len="@ + text::dec(t.payload_len as nat)
    } else {
        win
    }
}

fn format_tcp(t: &TcpDetails) -> (r: String)
    ensures
        r@ == tcp_text(*t),
{
    let mut s = format_tcp_flags(t.flags);
    s.append(" Seq=");
    text::push_dec(&mut s, t.seq as u64);
    if t.flags & 0x10 != 0 {
        s.append(" Ack=");
        text::push_dec(&mut s, t.ack as u64);
    }
    s.append(" Win=");
    text::push_dec(&mut s, t.window as u64);
    if t.payload_len > 0 {
        s.append(" Len=");
        text::push_dec(&mut s, t.payload_len as u64);
    }
    s
}

/// The way of a packet: protocol, source and destination.
pub open spec fn route_text(p: PacketView) -> Seq<char> {
    p.protocol + " "@ + endpoint_text(p.src_addr, p.src_port) + " \u{2192} "@ + endpoint_text(
        p.dst_addr,
        p.dst_port,
    )
}

/// A packet in one line.
pub open spec fn message_text(p: PacketView) -> Seq<char> {
    let head = match p.vlan_id {
        Some(id) => route_text(p) + " [VLAN "@ + text::dec(id as nat) + "]"@,
        None => route_text(p),
    };
    let body = match p.tcp_details {
        Some(t) => head + " "@ + tcp_text(t),
        None => if p.info.len() == 0 {
            head + " Len="@ + text::dec(p.length as nat)
        } else {
            head + " "@ + p.info + " Len="@ + text::dec(p.length as nat)
        },
    };
    if p.is_abnormal {
        body + " \u{26a0}"@
    } else {
        body
    }
}

/// A packet in one line with its time of day and more detail.
pub open spec fn raw_text(p: PacketView, clock: Seq<char>) -> Seq<char> {
    let route = "["@ + clock + "] "@ + route_text(p);
    let head = match p.vlan_id {
        Some(id) => route + " VLAN="@ + text::dec(id as nat),
        None => route,
    };
    let body = match p.tcp_details {
        Some(t) => head + " "@ + tcp_text(t),
        None => head + " "@ + p.info + " Length="@ + text::dec(p.length as nat),
    };
    if p.is_abnormal {
        body + " [ABNORMAL]"@
    } else {
        body
    }
}

/// The destination by which decodings of multicast packets are switched.
pub open spec fn multicast_key_of(p: PacketView) -> Option<Seq<char>> {
    match p.dst_port {
        Some(port) => if net::is_multicast_text(p.dst_addr) && p.protocol == "UDP"@ {
            Some(p.dst_addr + ":"@ + text::dec(port as nat))
        } else {
            None
        },
        None => None,
    }
}

impl PacketInfo {
    /// Whether the packet goes to a multicast address.
    pub fn is_multicast(&self) -> (r: bool)
        ensures
            r == net::is_multicast_text(self@.dst_addr),
    {
        net::is_multicast_address(self.dst_addr.as_str())
    }

    /// The destination by which decodings of multicast packets are switched: the
    /// address and the port of a UDP packet that goes to a multicast address.
    pub fn multicast_key(&self) -> (r: Option<String>)
        ensures
            text::opt_text(r) == multicast_key_of(self@),
    {
        if self.is_multicast() && self.protocol == String::from_str("UDP") {
            match self.dst_port {
                Some(port) => Some(format_endpoint(&self.dst_addr, Some(port))),
                None => None,
            }
        } else {
            None
        }
    }

    fn format_route(&self) -> (r: String)
        ensures
            r@ == route_text(self@),
    {
        let mut s = self.protocol.clone();
        s.append(" ");
        s.append(format_endpoint(&self.src_addr, self.src_port).as_str());
        s.append(" \u{2192} ");
        s.append(format_endpoint(&self.dst_addr, self.dst_port).as_str());
        s
    }

    /// Writes the packet in one line.
    pub fn format_message(&self) -> (r: String)
        ensures
            r@ == message_text(self@),
    {
        let mut s = self.format_route();
        if let Some(id) = self.vlan_id {
            s.append(" [VLAN ");
            text::push_dec(&mut s, id as u64);
            s.append("]");
        }
        match &self.tcp_details {
            Some(tcp) => {
                s.append(" ");
                s.append(format_tcp(tcp).as_str());
            },
            None => {
                if !self.info.as_str().is_empty() {
                    s.append(" ");
                    s.append(self.info.as_str());
                }
                s.append(" Len=");
                text::push_dec(&mut s, self.length as u64);
            },
        }
        if self.is_abnormal {
            s.append(" \u{26a0}");
        }
        s
    }

    /// Writes the packet in one line with more detail, behind a time of day.
    pub fn format_raw_at(&self, clock: &str) -> (r: String)
        ensures
            r@ == raw_text(self@, clock@),
    {
        let mut s = String::from_str("[");
        s.append(clock);
        s.append("] ");
        s.append(self.format_route().as_str());
        if let Some(id) = self.vlan_id {
            s.append(" VLAN=");
            text::push_dec(&mut s, id as u64);
        }
        match &self.tcp_details {
            Some(tcp) => {
                s.append(" ");
                s.append(format_tcp(tcp).as_str());
            },
            None => {
                s.append(" ");
                s.append(self.info.as_str());
                s.append(" Length=");
                text::push_dec(&mut s, self.length as u64);
            },
        }
        if self.is_abnormal {
            s.append(" [ABNORMAL]");
        }
        s
    }

    /// Writes the packet in one line with more detail, behind its time of day in the
    /// machine's time zone.
    pub fn format_raw(&self) -> (r: String)
        requires
            self.timestamp.valid(),
        ensures
            exists|clock: Seq<char>|
                time::is_clock_of(self.timestamp, clock) && r@ == #[trigger] raw_text(self@, clock),
    {
        let clock = time::clock_text(self.timestamp);
        self.format_raw_at(clock.as_str())
    }
}

impl Clone for PacketInfo {
    fn clone(&self) -> (r: Self)
        ensures
            r@ == self@,
    {
        PacketInfo {
            timestamp: self.timestamp,
            src_addr: self.src_addr.clone(),
            src_port: self.src_port,
            dst_addr: self.dst_addr.clone(),
            dst_port: self.dst_port,
            src_mac: text::clone_opt(&self.src_mac),
            dst_mac: text::clone_opt(&self.dst_mac),
            protocol: self.protocol.clone(),
            vlan_id: self.vlan_id,
            length: self.length,
            info: self.info.clone(),
            tcp_details: self.tcp_details,
            is_abnormal: self.is_abnormal,
            transport_payload: match &self.transport_payload {
                Some(v) => copy_all(v.as_slice()),
                None => None,
            },
        }
    }
}

/// A copy of some bytes.
fn copy_all(d: &[u8]) -> (r: Option<Vec<u8>>)
    ensures
        opt_bytes(r) == Some(d@),
{
    let mut v: Vec<u8> = Vec::new();
    v.extend_from_slice(d);
    assert(v@ =~= d@);
    Some(v)
}

/// The flags of a TCP segment are the bits of a byte.
pub proof fn lemma_flag_bits(flags: u8)
    ensures
        (flags & 0x04 != 0) == ((flags / 4) % 2 == 1),
        (flags & 0x10 != 0) == ((flags / 16) % 2 == 1),
        (flags & 0x05 != 0) == (flags % 2 == 1 || (flags / 4) % 2 == 1),
{
    assert((flags & 0x04 != 0) == ((flags / 4) % 2 == 1) && (flags & 0x10 != 0) == ((flags / 16) % 2
        == 1) && (flags & 0x05 != 0) == (flags % 2 == 1 || (flags / 4) % 2 == 1))
        by (bit_vector);
}

proof fn lemma_halves(b: u8)
    ensures
        (b >> 4) & 0x0f == b / 16,
        b & 0x0f == b % 16,
        (b & 0x01 != 0) == (b % 2 == 1),
        (b & 0x02 != 0) == ((b / 2) % 2 == 1),
        (b & 0x04 != 0) == ((b / 4) % 2 == 1),
        (b & 0x08 != 0) == ((b / 8) % 2 == 1),
        (b & 0x10 != 0) == ((b / 16) % 2 == 1),
        (b & 0x20 != 0) == ((b / 32) % 2 == 1),
{
    assert((b >> 4) & 0x0f == b / 16 && b & 0x0f == b % 16 && (b & 0x01 != 0) == (b % 2 == 1) && (b
        & 0x02 != 0) == ((b / 2) % 2 == 1) && (b & 0x04 != 0) == ((b / 4) % 2 == 1) && (b & 0x08
        != 0) == ((b / 8) % 2 == 1) && (b & 0x10 != 0) == ((b / 16) % 2 == 1) && (b & 0x20 != 0)
        == ((b / 32) % 2 == 1)) by (bit_vector);
}

/// A TCP header is as long as the high half of its thirteenth byte says, in words of four
/// bytes. What stands behind it, and nothing of its options, is the payload. Ports, numbers,
/// flags and window stand in the first bytes, the highest byte first.
pub proof fn data_behind_a_tcp_header_is_the_payload(h: Seq<u8>, p: Seq<u8>)
    requires
        h.len() >= 20,
        h.len() == 4 * (h[12] / 16),
        p.len() <= u32::MAX,
    ensures
        tcp_segment(h + p).payload == if p.len() == 0 {
            None
        } else {
            Some(p)
        },
        tcp_segment(h + p).tcp_details is Some,
        tcp_segment(h + p).tcp_details->0.payload_len == p.len(),
        tcp_segment(h + p).tcp_details->0.seq == h[4] * 0x100_0000 + h[5] * 0x1_0000 + h[6] * 0x100
            + h[7],
        tcp_segment(h + p).tcp_details->0.ack == h[8] * 0x100_0000 + h[9] * 0x1_0000 + h[10]
            * 0x100 + h[11],
        tcp_segment(h + p).tcp_details->0.flags == h[13],
        tcp_segment(h + p).tcp_details->0.window == h[14] * 0x100 + h[15],
        tcp_segment(h + p).src_port is Some,
        tcp_segment(h + p).src_port->0 == h[0] * 0x100 + h[1],
        tcp_segment(h + p).dst_port is Some,
        tcp_segment(h + p).dst_port->0 == h[2] * 0x100 + h[3],
        tcp_segment(h + p).protocol == "TCP"@,
        tcp_segment(h + p).info.len() == 0,
{
    let d = h + p;
    lemma_halves(d[12]);
    assert(d.subrange(h.len() as int, d.len() as int) =~= p);
}

/// TCP segments that differ only in their options have the same payload.
pub proof fn tcp_options_change_no_payload(h: Seq<u8>, other: Seq<u8>, p: Seq<u8>)
    requires
        h.len() >= 20,
        h.len() == 4 * (h[12] / 16),
        other.len() >= 20,
        other.len() == 4 * (other[12] / 16),
        p.len() <= u32::MAX,
        forall|i: int| 0 <= i < 20 && i != 12 ==> #[trigger] h[i] == other[i],
    ensures
        tcp_segment(h + p) == tcp_segment(other + p),
{
    data_behind_a_tcp_header_is_the_payload(h, p);
    data_behind_a_tcp_header_is_the_payload(other, p);
    assert(h[0] == other[0] && h[1] == other[1] && h[2] == other[2] && h[3] == other[3] && h[4]
        == other[4] && h[5] == other[5] && h[6] == other[6] && h[7] == other[7] && h[8] == other[8]
        && h[9] == other[9] && h[10] == other[10] && h[11] == other[11] && h[13] == other[13]
        && h[14] == other[14] && h[15] == other[15]);
}

/// A TCP segment that breaks off before its header ends has no payload, and one that breaks
/// off in the first 20 bytes has no ports either.
pub proof fn broken_tcp_headers_carry_nothing(d: Seq<u8>)
    ensures
        d.len() < 20 ==> tcp_segment(d).src_port is None && tcp_segment(d).dst_port is None
            && tcp_segment(d).tcp_details is None && tcp_segment(d).payload is None,
        20 <= d.len() <= 4 * (d[12] / 16) ==> tcp_segment(d).payload is None && (tcp_segment(
            d,
        ).tcp_details matches Some(t) && t.payload_len == 0),
        tcp_segment(d).protocol == "TCP"@,
{
    if d.len() >= 20 {
        lemma_halves(d[12]);
    }
}

/// A UDP header has eight bytes: the ports stand in the first four, and what stands behind
/// the header is the payload. One that breaks off says nothing.
pub proof fn data_behind_a_udp_header_is_the_payload(h: Seq<u8>, p: Seq<u8>)
    requires
        h.len() == 8,
    ensures
        udp_datagram(h + p).payload == if p.len() == 0 {
            None
        } else {
            Some(p)
        },
        udp_datagram(h + p).src_port is Some,
        udp_datagram(h + p).src_port->0 == h[0] * 0x100 + h[1],
        udp_datagram(h + p).dst_port is Some,
        udp_datagram(h + p).dst_port->0 == h[2] * 0x100 + h[3],
        udp_datagram(h + p).tcp_details is None,
        udp_datagram(h + p).protocol == "UDP"@,
        udp_datagram(h + p).info.len() == 0,
        p.len() < 8 ==> udp_datagram(p).src_port is None && udp_datagram(p).dst_port is None
            && udp_datagram(p).payload is None && udp_datagram(p).protocol == "UDP"@,
{
    let d = h + p;
    assert(d.subrange(8, d.len() as int) =~= p);
}

/// Messages of control have names by their type, and those about destinations that cannot be
/// reached by their code too. Others are shown by both numbers.
pub proof fn control_messages_have_names(d: Seq<u8>)
    requires
        d.len() >= 2,
    ensures
        d[0] == 0 <==> control_message_text(d) == "Echo Reply"@,
        d[0] == 8 <==> control_message_text(d) == "Echo Request"@,
        d[0] == 11 <==> control_message_text(d) == "Time Exceeded"@,
        d[0] == 3 && d[1] == 0 <==> control_message_text(d) == "Dest Unreachable (Net)"@,
        d[0] == 3 && d[1] == 1 <==> control_message_text(d) == "Dest Unreachable (Host)"@,
        d[0] == 3 && d[1] == 3 <==> control_message_text(d) == "Dest Unreachable (Port)"@,
        (d[0] == 3 && d[1] != 0 && d[1] != 1 && d[1] != 3) || (d[0] != 0 && d[0] != 3 && d[0] != 8
            && d[0] != 11) ==> control_message_text(d) == "Type="@ + text::dec(d[0] as nat)
            + " Code="@ + text::dec(d[1] as nat),
{
    reveal_strlit("Echo Reply");
    reveal_strlit("Echo Request");
    reveal_strlit("Time Exceeded");
    reveal_strlit("Dest Unreachable (Net)");
    reveal_strlit("Dest Unreachable (Host)");
    reveal_strlit("Dest Unreachable (Port)");
    reveal_strlit("Type=");
    let a = "Echo Reply"@;
    let b = "Echo Request"@;
    let c = "Time Exceeded"@;
    let n = "Dest Unreachable (Net)"@;
    let h = "Dest Unreachable (Host)"@;
    let p = "Dest Unreachable (Port)"@;
    assert(a.len() == 10 && b.len() == 12 && c.len() == 13 && n.len() == 22 && h.len() == 23
        && p.len() == 23);
    assert(h[18] == 'H' && p[18] == 'P');
    let s = control_message_text(d);
    let other = "Type="@ + text::dec(d[0] as nat) + " Code="@ + text::dec(d[1] as nat);
    assert(other[1] == 'y');
    assert(a[1] == 'c' && b[1] == 'c' && c[1] == 'i' && n[1] == 'e' && h[1] == 'e' && p[1] == 'e');
}

/// An IPv4 header is as long as the low half of its first byte says, in words of four bytes,
/// and what stands behind it goes by the protocol in its tenth byte. Its addresses and its
/// length stand at fixed places. The time and the virtual network are those of the frame.
pub proof fn ipv4_headers_are_taken_off(
    h: Seq<u8>,
    t: Seq<u8>,
    timestamp: Timestamp,
    vlan_id: Option<u16>,
)
    requires
        h.len() >= 20,
        h.len() == 4 * (h[0] % 16),
    ensures
        ipv4_packet(h + t, timestamp, vlan_id) matches Some(p) && {
            &&& p.timestamp == timestamp
            &&& p.vlan_id == vlan_id
            &&& p.length == h[2] * 0x100 + h[3]
            &&& p.src_addr == net::ipv4_text(h[12], h[13], h[14], h[15])
            &&& p.dst_addr == net::ipv4_text(h[16], h[17], h[18], h[19])
            &&& p.src_mac is None && p.dst_mac is None
            &&& h[9] == 6 ==> p.protocol == "TCP"@ && p.src_port == tcp_segment(t).src_port
                && p.dst_port == tcp_segment(t).dst_port && p.tcp_details == tcp_segment(
                t,
            ).tcp_details && p.transport_payload == tcp_segment(t).payload && p.is_abnormal == (
            t.len() >= 20 && (t[13] / 4) % 2 == 1)
            &&& h[9] == 17 ==> p.protocol == "UDP"@ && p.src_port == udp_datagram(t).src_port
                && p.dst_port == udp_datagram(t).dst_port && p.transport_payload == udp_datagram(
                t,
            ).payload
            &&& h[9] == 1 ==> p.protocol == "ICMP"@ && p.info == control_message_text(t)
            &&& h[9] != 1 ==> p.info.len() == 0
            &&& h[9] != 1 && h[9] != 6 && h[9] != 17 ==> p.protocol == "IP/"@ + text::dec(
                h[9] as nat,
            )
            &&& h[9] != 6 ==> p.tcp_details is None && !p.is_abnormal
            &&& h[9] != 6 && h[9] != 17 ==> p.src_port is None && p.dst_port is None
                && p.transport_payload is None
        },
{
    let d = h + t;
    lemma_halves(d[0]);
    assert(d.subrange(h.len() as int, d.len() as int) =~= t);
    if t.len() >= 20 {
        lemma_halves(t[13]);
    }
}

/// An IPv4 packet that breaks off in its header says nothing, and every other one does.
pub proof fn broken_ipv4_headers_say_nothing(
    d: Seq<u8>,
    timestamp: Timestamp,
    vlan_id: Option<u16>,
)
    ensures
        ipv4_packet(d, timestamp, vlan_id) is None == (d.len() < 20 || d.len() < 4 * (d[0] % 16)),
{
    lemma_halves(d[0]);
}

/// An IPv6 header has 40 bytes, and what stands behind it goes by the number of the next
/// header in its seventh byte. Its addresses and the length of the rest stand at fixed places.
/// A packet that breaks off in its header says nothing.
pub proof fn ipv6_headers_are_taken_off(
    h: Seq<u8>,
    t: Seq<u8>,
    timestamp: Timestamp,
    vlan_id: Option<u16>,
)
    requires
        h.len() == 40,
    ensures
        t.len() < 40 ==> ipv6_packet(t, timestamp, vlan_id) is None,
        ipv6_packet(h + t, timestamp, vlan_id) matches Some(p) && {
            &&& p.timestamp == timestamp
            &&& p.vlan_id == vlan_id
            &&& p.length == h[4] * 0x100 + h[5] + 40
            &&& p.src_addr == net::groups_text(h.subrange(8, 24), 0, 8)
            &&& p.dst_addr == net::groups_text(h.subrange(24, 40), 0, 8)
            &&& p.src_mac is None && p.dst_mac is None
            &&& p.info.len() == 0
            &&& h[6] == 6 ==> p.protocol == "TCP"@ && p.src_port == tcp_segment(t).src_port
                && p.dst_port == tcp_segment(t).dst_port && p.tcp_details == tcp_segment(
                t,
            ).tcp_details && p.transport_payload == tcp_segment(t).payload && p.is_abnormal == (
            t.len() >= 20 && (t[13] / 4) % 2 == 1)
            &&& h[6] == 17 ==> p.protocol == "UDP"@ && p.src_port == udp_datagram(t).src_port
                && p.dst_port == udp_datagram(t).dst_port && p.transport_payload == udp_datagram(
                t,
            ).payload
            &&& h[6] == 58 ==> p.protocol == "ICMPv6"@
            &&& h[6] != 6 && h[6] != 17 && h[6] != 58 ==> p.protocol == "IPv6/"@ + text::dec(
                h[6] as nat,
            )
            &&& h[6] != 6 ==> p.tcp_details is None && !p.is_abnormal
            &&& h[6] != 6 && h[6] != 17 ==> p.src_port is None && p.dst_port is None
                && p.transport_payload is None
        },
{
    let d = h + t;
    assert(d.subrange(40, d.len() as int) =~= t);
    assert(d.subrange(8, 24) =~= h.subrange(8, 24));
    assert(d.subrange(24, 40) =~= h.subrange(24, 40));
    if t.len() >= 20 {
        lemma_halves(t[13]);
    }
}

/// An Ethernet address is shown by its six bytes in order, in hexadecimal with two digits each
/// and colons between them.
pub proof fn ethernet_addresses_show_six_bytes(b: Seq<u8>, i: int)
    requires
        b.len() == 6,
        0 <= i < 6,
    ensures
        mac_text(b).len() == 17,
        text::number_of(mac_text(b).subrange(3 * i, 3 * i + 2), 16) == b[i],
        i > 0 ==> mac_text(b)[3 * i - 1] == ':',
{
    reveal_strlit(":");
    text::fixed_hexadecimal_texts_are_read_back(b[0] as nat);
    text::fixed_hexadecimal_texts_are_read_back(b[1] as nat);
    text::fixed_hexadecimal_texts_are_read_back(b[2] as nat);
    text::fixed_hexadecimal_texts_are_read_back(b[3] as nat);
    text::fixed_hexadecimal_texts_are_read_back(b[4] as nat);
    text::fixed_hexadecimal_texts_are_read_back(b[5] as nat);
    assert(mac_text(b).subrange(3 * i, 3 * i + 2) =~= text::hex_fixed(b[i] as nat, 2));
}

/// An Ethernet frame goes by the type in its thirteenth and fourteenth byte. Behind them an IP
/// packet is read, which gets the addresses of the frame: that of the destination stands first
/// and that of the source second. Other frames are shown between their own addresses.
pub proof fn ethernet_headers_are_taken_off(e: Seq<u8>, b: Seq<u8>, timestamp: Timestamp)
    requires
        e.len() == 14,
        e[12] * 0x100 + e[13] != 0x8100,
    ensures
        e[12] == 0x08 && e[13] == 0x00 ==> frame_packet(e + b, timestamp) == match ipv4_packet(
            b,
            timestamp,
            None,
        ) {
            Some(p) => Some(
                PacketView {
                    src_mac: Some(mac_text(e.subrange(6, 12))),
                    dst_mac: Some(mac_text(e.subrange(0, 6))),
                    ..p
                },
            ),
            None => None,
        },
        e[12] == 0x86 && e[13] == 0xdd ==> frame_packet(e + b, timestamp) == match ipv6_packet(
            b,
            timestamp,
            None,
        ) {
            Some(p) => Some(
                PacketView {
                    src_mac: Some(mac_text(e.subrange(6, 12))),
                    dst_mac: Some(mac_text(e.subrange(0, 6))),
                    ..p
                },
            ),
            None => None,
        },
        !(e[12] == 0x08 && e[13] == 0x00) && !(e[12] == 0x86 && e[13] == 0xdd) ==> (frame_packet(
            e + b,
            timestamp,
        ) matches Some(p) && {
            &&& p.timestamp == timestamp
            &&& p.src_addr == mac_text(e.subrange(6, 12))
            &&& p.dst_addr == mac_text(e.subrange(0, 6))
            &&& p.vlan_id is None
            &&& p.src_port is None && p.dst_port is None && p.transport_payload is None
                && p.tcp_details is None && !p.is_abnormal
            &&& e.len() + b.len() <= u32::MAX ==> p.length == 14 + b.len()
            &&& e[12] == 0x08 && e[13] == 0x06 ==> p.protocol == "ARP"@ && p.info
                == "ARP Request/Reply"@
            &&& !(e[12] == 0x08 && e[13] == 0x06) ==> p.info.len() == 0 && p.protocol == "0x"@
                + text::hex_fixed((e[12] * 0x100 + e[13]) as nat, 4)
        }),
{
    let d = e + b;
    assert(d.subrange(14, d.len() as int) =~= b);
    assert(d.subrange(6, 12) =~= e.subrange(6, 12));
    assert(d.subrange(0, 6) =~= e.subrange(0, 6));
}

/// A frame without a whole header says nothing.
pub proof fn broken_frames_say_nothing(d: Seq<u8>, timestamp: Timestamp)
    requires
        d.len() < 14,
    ensures
        frame_packet(d, timestamp) is None,
{
}

proof fn lemma_network_of_ip_packets(b: Seq<u8>, timestamp: Timestamp, id: u16)
    ensures
        ipv4_packet(b, timestamp, Some(id)) == match ipv4_packet(b, timestamp, None) {
            Some(p) => Some(PacketView { vlan_id: Some(id), ..p }),
            None => None,
        },
        ipv6_packet(b, timestamp, Some(id)) == match ipv6_packet(b, timestamp, None) {
            Some(p) => Some(PacketView { vlan_id: Some(id), ..p }),
            None => None,
        },
{
}

/// The tag of a virtual network is put between the addresses and the type of a frame. A frame
/// with a tag says what it says without it, and the twelve low bits of the tag besides; where
/// it carries no IP packet it is longer by the tag.
#[verifier::spinoff_prover]
#[verifier::rlimit(40)]
pub proof fn tags_add_the_virtual_network(
    d: Seq<u8>,
    high: u8,
    low: u8,
    timestamp: Timestamp,
)
    requires
        d.len() >= 14,
        d.len() + 4 <= u32::MAX,
        d[12] * 0x100 + d[13] != 0x8100,
    ensures
        frame_packet(d.take(12) + seq![0x81u8, 0x00u8, high, low] + d.skip(12), timestamp)
            == match frame_packet(d, timestamp) {
            Some(p) => Some(
                PacketView {
                    vlan_id: Some(((high % 16) * 0x100 + low) as u16),
                    length: if (d[12] == 0x08 && d[13] == 0x00) || (d[12] == 0x86 && d[13]
                        == 0xdd) {
                        p.length
                    } else {
                        (p.length + 4) as u32
                    },
                    ..p
                },
            ),
            None => None,
        },
{
    let t = d.take(12) + seq![0x81u8, 0x00u8, high, low] + d.skip(12);
    let id = ((high % 16) * 0x100 + low) as u16;
    lemma_tagged_frame(d, high, low);
    let b = frame_payload(d);
    lemma_network_of_ip_packets(b, timestamp, id);
    if frame_type(d) == 0x0800 {
        assert(frame_packet(t, timestamp) == with_macs(ipv4_packet(b, timestamp, Some(id)), t));
        assert(frame_packet(d, timestamp) == with_macs(ipv4_packet(b, timestamp, None), d));
    } else if frame_type(d) == 0x86dd {
        assert(frame_packet(t, timestamp) == with_macs(ipv6_packet(b, timestamp, Some(id)), t));
        assert(frame_packet(d, timestamp) == with_macs(ipv6_packet(b, timestamp, None), d));
    } else {
        assert(t.len() == d.len() + 4);
    }
}

proof fn lemma_tagged_frame(d: Seq<u8>, high: u8, low: u8)
    requires
        d.len() >= 14,
        d[12] * 0x100 + d[13] != 0x8100,
    ensures
        ({
            let t = d.take(12) + seq![0x81u8, 0x00u8, high, low] + d.skip(12);
            &&& t.len() == d.len() + 4
            &&& frame_type(t) == frame_type(d)
            &&& frame_type(d) == d[12] * 0x100 + d[13]
            &&& frame_payload(t) == frame_payload(d)
            &&& frame_vlan(t) == Some(((high % 16) * 0x100 + low) as u16)
            &&& frame_vlan(d) is None
            &&& t.subrange(6, 12) == d.subrange(6, 12)
            &&& t.subrange(0, 6) == d.subrange(0, 6)
        }),
{
    let t = d.take(12) + seq![0x81u8, 0x00u8, high, low] + d.skip(12);
    assert(t[12] == 0x81 && t[13] == 0x00 && t[14] == high && t[15] == low && t[16] == d[12]
        && t[17] == d[13]);
    assert(has_vlan_tag(t));
    assert(!has_vlan_tag(d));
    assert(t.subrange(18, t.len() as int) =~= d.subrange(14, d.len() as int));
    assert(t.subrange(6, 12) =~= d.subrange(6, 12));
    assert(t.subrange(0, 6) =~= d.subrange(0, 6));
    let x = net::be16(high, low) as u16;
    assert(x & 0x0fff == x % 4096) by (bit_vector);
    assert(high == 16 * (high / 16) + high % 16);
    assert(x == 4096 * (high / 16) + (high % 16) * 0x100 + low);
}

/// The flags of a TCP segment are shown by the names of those that are set: SYN, ACK, FIN,
/// RST, PSH and URG, in this order, with commas between them and in square brackets.
pub proof fn set_flags_are_shown(flags: u8, name: Seq<char>)
    ensures
        flag_names(flags).contains(name) == ({
            ||| name == "SYN"@ && (flags / 2) % 2 == 1
            ||| name == "ACK"@ && (flags / 16) % 2 == 1
            ||| name == "FIN"@ && flags % 2 == 1
            ||| name == "RST"@ && (flags / 4) % 2 == 1
            ||| name == "PSH"@ && (flags / 8) % 2 == 1
            ||| name == "URG"@ && (flags / 32) % 2 == 1
        }),
        flag_names(flags).len() == (flags / 2) % 2 + (flags / 16) % 2 + flags % 2 + (flags / 4) % 2
            + (flags / 8) % 2 + (flags / 32) % 2,
        (flags / 2) % 2 == 1 ==> flag_names(flags)[0] == "SYN"@,
        (flags / 16) % 2 == 1 ==> flag_names(flags)[((flags / 2) % 2) as int] == "ACK"@,
        (flags / 32) % 2 == 1 ==> flag_names(flags).last() == "URG"@,
        (flags / 8) % 2 == 1 ==> flag_names(flags)[flag_names(flags).len() - 1 - (flags / 32) % 2]
            == "PSH"@,
        flags % 2 == 1 ==> flag_names(flags)[(flags / 2) % 2 + (flags / 16) % 2] == "FIN"@,
        flags_text(flags) == "["@ + text::join_spec(flag_names(flags), ","@) + "]"@,
{
    lemma_halves(flags);
    let a = flag_name(flags, 0x02, "SYN"@);
    let b = flag_name(flags, 0x10, "ACK"@);
    let c = flag_name(flags, 0x01, "FIN"@);
    let d = flag_name(flags, 0x04, "RST"@);
    let e = flag_name(flags, 0x08, "PSH"@);
    let f = flag_name(flags, 0x20, "URG"@);
    let s = flag_names(flags);
    let n1 = a.len() as int;
    let n2 = n1 + b.len();
    let n3 = n2 + c.len();
    let n4 = n3 + d.len();
    let n5 = n4 + e.len();
    assert(a.len() == 1 ==> s[0] == "SYN"@);
    assert(b.len() == 1 ==> s[n1] == "ACK"@);
    assert(c.len() == 1 ==> s[n2] == "FIN"@);
    assert(d.len() == 1 ==> s[n3] == "RST"@);
    assert(e.len() == 1 ==> s[n4] == "PSH"@);
    assert(f.len() == 1 ==> s[n5] == "URG"@);
    if s.contains(name) {
        let k = choose|k: int| 0 <= k < s.len() && s[k] == name;
        assert(k == 0 || k == n1 || k == n2 || k == n3 || k == n4 || k == n5);
    }
}

/// A TCP segment is shown by its flags, its number, its acknowledgement where it has one, its
/// window and the length of its data where it has any, with spaces between them.
pub proof fn segments_are_shown_by_their_parts(t: TcpDetails)
    ensures
        (t.flags / 16) % 2 == 1 && t.payload_len > 0 ==> tcp_text(t) == text::join_spec(
            seq![
                flags_text(t.flags),
                "Seq="@ + text::dec(t.seq as nat),
                "Ack="@ + text::dec(t.ack as nat),
                "Win="@ + text::dec(t.window as nat),
                "Len="@ + text::dec(t.payload_len as nat),
            ],
            " "@,
        ),
        (t.flags / 16) % 2 == 1 && t.payload_len == 0 ==> tcp_text(t) == text::join_spec(
            seq![
                flags_text(t.flags),
                "Seq="@ + text::dec(t.seq as nat),
                "Ack="@ + text::dec(t.ack as nat),
                "Win="@ + text::dec(t.window as nat),
            ],
            " "@,
        ),
        (t.flags / 16) % 2 == 0 && t.payload_len > 0 ==> tcp_text(t) == text::join_spec(
            seq![
                flags_text(t.flags),
                "Seq="@ + text::dec(t.seq as nat),
                "Win="@ + text::dec(t.window as nat),
                "Len="@ + text::dec(t.payload_len as nat),
            ],
            " "@,
        ),
        (t.flags / 16) % 2 == 0 && t.payload_len == 0 ==> tcp_text(t) == text::join_spec(
            seq![
                flags_text(t.flags),
                "Seq="@ + text::dec(t.seq as nat),
                "Win="@ + text::dec(t.window as nat),
            ],
            " "@,
        ),
{
    lemma_halves(t.flags);
    reveal_strlit(" ");
    reveal_strlit("Seq=");
    reveal_strlit("Ack=");
    reveal_strlit("Win=");
    reveal_strlit("Len=");
    reveal_strlit(" Seq=");
    reveal_strlit(" Ack=");
    reveal_strlit(" Win=");
    reveal_strlit(" Len=");
    let sep = " "@;
    let f = flags_text(t.flags);
    let s = "Seq="@ + text::dec(t.seq as nat);
    let a = "Ack="@ + text::dec(t.ack as nat);
    let w = "Win="@ + text::dec(t.window as nat);
    let l = "Len="@ + text::dec(t.payload_len as nat);
    assert(" Seq="@ =~= sep + "Seq="@ && " Ack="@ =~= sep + "Ack="@ && " Win="@ =~= sep + "Win="@
        && " Len="@ =~= sep + "Len="@);
    text::joining_goes_part_by_part(seq![f], sep, f);
    text::joining_goes_part_by_part(seq![f], sep, s);
    assert(seq![f].push(s) =~= seq![f, s]);
    text::joining_goes_part_by_part(seq![f, s], sep, a);
    text::joining_goes_part_by_part(seq![f, s], sep, w);
    assert(seq![f, s].push(a) =~= seq![f, s, a]);
    assert(seq![f, s].push(w) =~= seq![f, s, w]);
    text::joining_goes_part_by_part(seq![f, s, w], sep, l);
    text::joining_goes_part_by_part(seq![f, s, a], sep, w);
    assert(seq![f, s, w].push(l) =~= seq![f, s, w, l]);
    assert(seq![f, s, a].push(w) =~= seq![f, s, a, w]);
    text::joining_goes_part_by_part(seq![f, s, a, w], sep, l);
    assert(seq![f, s, a, w].push(l) =~= seq![f, s, a, w, l]);
    if t.flags & 0x10 != 0 {
        assert(f + " Seq="@ + text::dec(t.seq as nat) + " Ack="@ + text::dec(t.ack as nat)
            + " Win="@ + text::dec(t.window as nat) =~= f + sep + s + sep + a + sep + w);
        assert(tcp_text(t) =~= if t.payload_len > 0 {
            f + sep + s + sep + a + sep + w + sep + l
        } else {
            f + sep + s + sep + a + sep + w
        });
    } else {
        assert(tcp_text(t) =~= if t.payload_len > 0 {
            f + sep + s + sep + w + sep + l
        } else {
            f + sep + s + sep + w
        });
    }
}

/// A packet is shown by its protocol and its way from source to destination, each with its
/// port where it has one. A TCP segment goes on with its parts, and another packet with what is
/// known of it and its length.
pub proof fn packets_are_shown_by_their_way(p: PacketView, clock: Seq<char>)
    requires
        p.vlan_id is None,
        !p.is_abnormal,
    ensures
        ({
            let src = match p.src_port {
                Some(port) => p.src_addr + ":"@ + text::dec(port as nat),
                None => p.src_addr,
            };
            let dst = match p.dst_port {
                Some(port) => p.dst_addr + ":"@ + text::dec(port as nat),
                None => p.dst_addr,
            };
            let way = text::join_spec(seq![p.protocol, src, "\u{2192}"@, dst], " "@);
            &&& message_text(p) == match p.tcp_details {
                Some(t) => way + " "@ + tcp_text(t),
                None => if p.info.len() == 0 {
                    way + " Len="@ + text::dec(p.length as nat)
                } else {
                    way + " "@ + p.info + " Len="@ + text::dec(p.length as nat)
                },
            }
            &&& raw_text(p, clock) == "["@ + clock + "] "@ + way + " "@ + match p.tcp_details {
                Some(t) => tcp_text(t),
                None => p.info + " Length="@ + text::dec(p.length as nat),
            }
        }),
{
    reveal_strlit(" ");
    reveal_strlit("\u{2192}");
    reveal_strlit(" \u{2192} ");
    let src = endpoint_text(p.src_addr, p.src_port);
    let dst = endpoint_text(p.dst_addr, p.dst_port);
    let sep = " "@;
    let arrow = "\u{2192}"@;
    assert(" \u{2192} "@ =~= sep + arrow + sep);
    text::joining_goes_part_by_part(seq![p.protocol], sep, p.protocol);
    text::joining_goes_part_by_part(seq![p.protocol], sep, src);
    assert(seq![p.protocol].push(src) =~= seq![p.protocol, src]);
    text::joining_goes_part_by_part(seq![p.protocol, src], sep, arrow);
    assert(seq![p.protocol, src].push(arrow) =~= seq![p.protocol, src, arrow]);
    text::joining_goes_part_by_part(seq![p.protocol, src, arrow], sep, dst);
    assert(seq![p.protocol, src, arrow].push(dst) =~= seq![p.protocol, src, arrow, dst]);
    let way = text::join_spec(seq![p.protocol, src, arrow, dst], sep);
    assert(route_text(p) =~= way);
    assert(raw_text(p, clock) =~= "["@ + clock + "] "@ + way + " "@ + match p.tcp_details {
        Some(t) => tcp_text(t),
        None => p.info + " Length="@ + text::dec(p.length as nat),
    });
}

/// An odd packet is shown as it would be otherwise, with a mark at the end. One of a virtual
/// network shows its number behind its way; where TCP says nothing of it, its length stands
/// last.
pub proof fn marks_stand_at_the_end(p: PacketView, clock: Seq<char>)
    ensures
        message_text(PacketView { is_abnormal: true, ..p }) == message_text(
            PacketView { is_abnormal: false, ..p },
        ) + " \u{26a0}"@,
        raw_text(PacketView { is_abnormal: true, ..p }, clock) == raw_text(
            PacketView { is_abnormal: false, ..p },
            clock,
        ) + " [ABNORMAL]"@,
{
}

/// The number of the virtual network stands between the way of a packet and what follows it.
#[verifier::spinoff_prover]
#[verifier::rlimit(40)]
pub proof fn virtual_networks_are_shown_behind_the_way(p: PacketView, id: u16, clock: Seq<char>)
    requires
        p.vlan_id is None,
    ensures
        ({
            let tagged = PacketView { vlan_id: Some(id), ..p };
            let n = route_text(p).len() as int;
            &&& message_text(p).take(n) == route_text(p)
            &&& message_text(tagged) == route_text(p) + " [VLAN "@ + text::dec(id as nat) + "]"@
                + message_text(p).skip(n)
            &&& raw_text(tagged, clock) == raw_text(p, clock).take(n + clock.len() + 3)
                + " VLAN="@ + text::dec(id as nat) + raw_text(p, clock).skip(n + clock.len() + 3)
        }),
{
    reveal_strlit("[");
    reveal_strlit("] ");
    let tagged = PacketView { vlan_id: Some(id), ..p };
    let way = route_text(p);
    let n = way.len() as int;
    assert(route_text(tagged) == way);
    let mark = " [VLAN "@ + text::dec(id as nat) + "]"@;
    let head = "["@ + clock + "] "@ + way;
    let note = " VLAN="@ + text::dec(id as nat);
    let m = n + clock.len() + 3;
    assert(head.len() == m);
    let (shown, detail) = match p.tcp_details {
        Some(t) => (" "@ + tcp_text(t), " "@ + tcp_text(t)),
        None => (
            if p.info.len() == 0 {
                " Len="@ + text::dec(p.length as nat)
            } else {
                " "@ + p.info + " Len="@ + text::dec(p.length as nat)
            },
            " "@ + p.info + " Length="@ + text::dec(p.length as nat),
        ),
    };
    let (shown, detail) = if p.is_abnormal {
        (shown + " \u{26a0}"@, detail + " [ABNORMAL]"@)
    } else {
        (shown, detail)
    };
    assert(message_text(p) =~= way + shown);
    assert(message_text(tagged) =~= way + mark + shown);
    assert(raw_text(p, clock) =~= head + detail);
    assert(raw_text(tagged, clock) =~= head + note + detail);
    assert((way + shown).take(n) =~= way);
    assert((way + shown).skip(n) =~= shown);
    assert((head + detail).take(m) =~= head);
    assert((head + detail).skip(m) =~= detail);
    assert(way + mark + shown =~= way + " [VLAN "@ + text::dec(id as nat) + "]"@ + shown);
    assert(head + note + detail =~= head + " VLAN="@ + text::dec(id as nat) + detail);
}

/// Decodings are switched for UDP packets that go to a group of hosts, by the address and the
/// port to which they go; where they come from does not matter.
pub proof fn decodings_go_by_the_destination(p: PacketView, q: PacketView)
    ensures
        multicast_key_of(p) is Some == (net::is_multicast_text(p.dst_addr) && p.protocol == "UDP"@
            && p.dst_port is Some),
        multicast_key_of(p) matches Some(key) ==> key == p.dst_addr + ":"@ + text::dec(
            p.dst_port->0 as nat,
        ),
        p.dst_addr == q.dst_addr && p.dst_port == q.dst_port && p.protocol == q.protocol
            ==> multicast_key_of(p) == multicast_key_of(q),
{
}

} // verus!
