//! Packets, flows and captures.

use logcrab::filetype::pcap::flow::TcpFlowTracker;
use logcrab::filetype::pcap::line::{
    pre_discover_someip_endpoints, try_pre_discover_someip_endpoints, PcapConfig, PcapFileState,
    PcapLogLine,
};
use logcrab::filetype::pcap::packet::{
    format_ipv6, format_mac, format_tcp_flags, parse_control_message, parse_ipv4_packet,
    parse_packet_data, parse_tcp_info, parse_udp_info, PacketInfo,
};
use logcrab::filetype::pcap::reader::{
    detect_pcap_format, parse_pcap_to_lines, pcap_ts_to_datetime, ticks_to_datetime,
    try_parse_pcap_to_lines, CaptureError, CaptureParser, PcapBlock, PcapFileType, PcapFormat,
};
use logcrab::filetype::pcap::someip::{
    check_sd_in_range, decode_someip, decode_someip_sd, try_decode_someip_sd, SomeIpEndpoint,
};
use logcrab::filetype::{CalibrationResult, LineType};
use logcrab::net::is_multicast_address;
use logcrab::time::{TimeSpan, Timestamp};

fn at(secs: i64) -> Timestamp {
    Timestamp { secs, nanos: 0 }
}

fn span_text(d: TimeSpan) -> String {
    format!("{} ms", d.num_milliseconds())
}

fn ethernet(ethertype: u16, payload: &[u8]) -> Vec<u8> {
    let mut d = vec![0x02, 0, 0, 0, 0, 0x01, 0xaa, 0xbb, 0xcc, 0xdd, 0xee, 0xff];
    d.extend_from_slice(&ethertype.to_be_bytes());
    d.extend_from_slice(payload);
    d
}

fn ipv4(protocol: u8, src: [u8; 4], dst: [u8; 4], payload: &[u8]) -> Vec<u8> {
    let total = (20 + payload.len()) as u16;
    let mut d = vec![0x45, 0];
    d.extend_from_slice(&total.to_be_bytes());
    d.extend_from_slice(&[0, 0, 0, 0, 64, protocol, 0, 0]);
    d.extend_from_slice(&src);
    d.extend_from_slice(&dst);
    d.extend_from_slice(payload);
    d
}

fn udp(src: u16, dst: u16, payload: &[u8]) -> Vec<u8> {
    let mut d = Vec::new();
    d.extend_from_slice(&src.to_be_bytes());
    d.extend_from_slice(&dst.to_be_bytes());
    d.extend_from_slice(&((8 + payload.len()) as u16).to_be_bytes());
    d.extend_from_slice(&[0, 0]);
    d.extend_from_slice(payload);
    d
}

fn tcp(src: u16, dst: u16, seq: u32, ack: u32, flags: u8, window: u16, payload: &[u8]) -> Vec<u8> {
    let mut d = Vec::new();
    d.extend_from_slice(&src.to_be_bytes());
    d.extend_from_slice(&dst.to_be_bytes());
    d.extend_from_slice(&seq.to_be_bytes());
    d.extend_from_slice(&ack.to_be_bytes());
    d.extend_from_slice(&[0x50, flags]);
    d.extend_from_slice(&window.to_be_bytes());
    d.extend_from_slice(&[0, 0, 0, 0]);
    d.extend_from_slice(payload);
    d
}

fn udp_packet(src: [u8; 4], sport: u16, dst: [u8; 4], dport: u16, payload: &[u8]) -> Vec<u8> {
    ethernet(0x0800, &ipv4(17, src, dst, &udp(sport, dport, payload)))
}

fn tcp_packet(seq: u32, ack: u32, flags: u8, window: u16, payload: &[u8]) -> PacketInfo {
    let segment = tcp(1000, 80, seq, ack, flags, window, payload);
    parse_packet_data(&ethernet(0x0800, &ipv4(6, [10, 0, 0, 1], [10, 0, 0, 2], &segment)), at(0))
        .unwrap()
}

/// A service discovery message that offers one service. It has one option, 10.0.0.1 with
/// UDP port 30501.
fn offer(first_index: u8, counts: u8) -> Vec<u8> {
    let mut sd = vec![0xc0, 0, 0, 0];
    sd.extend_from_slice(&16u32.to_be_bytes());
    sd.extend_from_slice(&[0x01, first_index, 0, counts, 0x12, 0x34, 0x00, 0x01, 1, 0, 0, 3]);
    sd.extend_from_slice(&2u32.to_be_bytes());
    sd.extend_from_slice(&12u32.to_be_bytes());
    sd.extend_from_slice(&[0, 9, 0x04, 0, 10, 0, 0, 1, 0, 0x11]);
    sd.extend_from_slice(&30501u16.to_be_bytes());
    someip(0xffff, 0x8100, 0x0000_0001, 0x02, 0, &sd)
}

fn someip(service: u16, method: u16, request: u32, kind: u8, code: u8, payload: &[u8]) -> Vec<u8> {
    let mut d = Vec::new();
    d.extend_from_slice(&service.to_be_bytes());
    d.extend_from_slice(&method.to_be_bytes());
    d.extend_from_slice(&((8 + payload.len()) as u32).to_be_bytes());
    d.extend_from_slice(&request.to_be_bytes());
    d.extend_from_slice(&[1, 1, kind, code]);
    d.extend_from_slice(payload);
    d
}

#[test]
fn udp_packet_is_read() {
    let d = udp_packet([10, 0, 0, 1], 5000, [224, 0, 0, 251], 5353, &[1, 2, 3]);
    let p = parse_packet_data(&d, at(7)).unwrap();
    assert_eq!(p.timestamp, at(7));
    assert_eq!(p.src_addr, "10.0.0.1");
    assert_eq!(p.dst_addr, "224.0.0.251");
    assert_eq!(p.src_port, Some(5000));
    assert_eq!(p.dst_port, Some(5353));
    assert_eq!(p.src_mac.as_deref(), Some("aa:bb:cc:dd:ee:ff"));
    assert_eq!(p.dst_mac.as_deref(), Some("02:00:00:00:00:01"));
    assert_eq!(p.protocol, "UDP");
    assert_eq!(p.length, 31);
    assert_eq!(p.transport_payload, Some(vec![1, 2, 3]));
    assert!(p.is_multicast());
    assert_eq!(p.multicast_key().as_deref(), Some("224.0.0.251:5353"));
    assert_eq!(p.format_message(), "UDP 10.0.0.1:5000 \u{2192} 224.0.0.251:5353 Len=31");
    assert!(p
        .format_raw()
        .ends_with("] UDP 10.0.0.1:5000 \u{2192} 224.0.0.251:5353  Length=31"));
}

#[test]
fn tcp_packet_is_read() {
    let p = tcp_packet(100, 200, 0x18, 512, &[0; 4]);
    assert_eq!(
        p.format_message(),
        "TCP 10.0.0.1:1000 \u{2192} 10.0.0.2:80 [ACK,PSH] Seq=100 Ack=200 Win=512 Len=4"
    );
    assert_eq!(
        p.format_raw_at("12:00:00.000000"),
        "[12:00:00.000000] TCP 10.0.0.1:1000 \u{2192} 10.0.0.2:80 [ACK,PSH] Seq=100 Ack=200 Win=512 Len=4"
    );
    let syn = tcp_packet(5, 0, 0x02, 64, &[]);
    assert_eq!(
        syn.format_message(),
        "TCP 10.0.0.1:1000 \u{2192} 10.0.0.2:80 [SYN] Seq=5 Win=64"
    );
    let rst = tcp_packet(5, 0, 0x04, 64, &[]);
    assert!(rst.is_abnormal);
    assert!(rst.format_message().ends_with("[RST] Seq=5 Win=64 \u{26a0}"));
    assert!(rst.format_raw_at("x").ends_with(" [ABNORMAL]"));
}

#[test]
fn short_packets_are_left_out() {
    assert!(parse_packet_data(&[0; 13], at(0)).is_none());
    assert!(parse_packet_data(&ethernet(0x0800, &[0x45; 19]), at(0)).is_none());
    assert!(parse_packet_data(&ethernet(0x86dd, &[0; 39]), at(0)).is_none());
    assert!(parse_ipv4_packet(&[0x4f; 20], at(0), None).is_none());
    let t = parse_tcp_info(&[0; 19]);
    assert_eq!((t.src_port, t.dst_port), (None, None));
    let u = parse_udp_info(&[0; 7]);
    assert_eq!(u.protocol, "UDP");
    assert!(u.payload.is_none());
}

#[test]
fn vlan_and_other_packets_are_read() {
    let mut tagged = vec![0x20, 0x05];
    tagged.extend_from_slice(&0x0800u16.to_be_bytes());
    tagged.extend_from_slice(&ipv4(1, [1, 2, 3, 4], [5, 6, 7, 8], &[8, 0]));
    let p = parse_packet_data(&ethernet(0x8100, &tagged), at(0)).unwrap();
    assert_eq!(p.vlan_id, Some(5));
    assert_eq!(
        p.format_message(),
        "ICMP 1.2.3.4 \u{2192} 5.6.7.8 [VLAN 5] Echo Request Len=22"
    );
    let arp = parse_packet_data(&ethernet(0x0806, &[0; 28]), at(0)).unwrap();
    assert_eq!(arp.protocol, "ARP");
    assert_eq!(arp.length, 42);
    assert_eq!(arp.src_mac, None);
    let other = parse_packet_data(&ethernet(0x88cc, &[]), at(0)).unwrap();
    assert_eq!(other.protocol, "0x88cc");
    assert_eq!(
        other.format_message(),
        "0x88cc aa:bb:cc:dd:ee:ff \u{2192} 02:00:00:00:00:01 Len=14"
    );
    let raw_ip = parse_packet_data(&ethernet(0x0800, &ipv4(89, [1, 1, 1, 1], [2, 2, 2, 2], &[])), at(0));
    assert_eq!(raw_ip.unwrap().protocol, "IP/89");
}

#[test]
fn ipv6_packet_is_read() {
    let mut d = vec![0x60, 0, 0, 0];
    d.extend_from_slice(&8u16.to_be_bytes());
    d.extend_from_slice(&[17, 64]);
    let mut src = [0u8; 16];
    src[0] = 0xfe;
    src[1] = 0x80;
    src[15] = 1;
    let mut dst = [0u8; 16];
    dst[0] = 0xff;
    dst[1] = 0x02;
    dst[15] = 0xfb;
    d.extend_from_slice(&src);
    d.extend_from_slice(&dst);
    d.extend_from_slice(&udp(1, 2, &[]));
    let p = parse_packet_data(&ethernet(0x86dd, &d), at(0)).unwrap();
    assert_eq!(p.src_addr, "fe80:0:0:0:0:0:0:1");
    assert_eq!(p.dst_addr, "ff02:0:0:0:0:0:0:fb");
    assert_eq!(p.length, 48);
    assert!(p.is_multicast());
    assert_eq!(format_ipv6(&[0; 15]), "::");
}

#[test]
fn control_messages_are_named() {
    assert_eq!(parse_control_message(&[0]), "");
    assert_eq!(parse_control_message(&[0, 9]), "Echo Reply");
    assert_eq!(parse_control_message(&[8, 0]), "Echo Request");
    assert_eq!(parse_control_message(&[3, 0]), "Dest Unreachable (Net)");
    assert_eq!(parse_control_message(&[3, 1]), "Dest Unreachable (Host)");
    assert_eq!(parse_control_message(&[3, 3]), "Dest Unreachable (Port)");
    assert_eq!(parse_control_message(&[11, 0]), "Time Exceeded");
    assert_eq!(parse_control_message(&[3, 2]), "Type=3 Code=2");
}

#[test]
fn flags_and_addresses_are_written() {
    assert_eq!(format_tcp_flags(0), "[]");
    assert_eq!(format_tcp_flags(0x3f), "[SYN,ACK,FIN,RST,PSH,URG]");
    assert_eq!(format_mac(&[1, 2, 3]), "??:??:??:??:??:??");
    assert_eq!(format_mac(&[0, 0x1a, 2, 3, 4, 0xff]), "00:1a:02:03:04:ff");
}

#[test]
fn multicast_addresses_are_told() {
    assert!(is_multicast_address("224.0.0.1"));
    assert!(is_multicast_address("239.255.255.255"));
    assert!(!is_multicast_address("223.255.255.255"));
    assert!(!is_multicast_address("240.0.0.1"));
    assert!(is_multicast_address("ff02:0:0:0:0:0:0:1"));
    assert!(!is_multicast_address("fe80:0:0:0:0:0:0:1"));
    assert!(!is_multicast_address("aa:bb:cc:dd:ee:ff"));
    assert!(!is_multicast_address("224.0.0.256"));
    assert!(!is_multicast_address("224.0.0.01"));
    assert!(!is_multicast_address(""));
}

#[test]
fn flows_show_what_is_odd() {
    let mut t = TcpFlowTracker::new();
    let mut first = tcp_packet(1000, 1, 0x10, 100, &[0; 10]);
    t.analyze_packet(&mut first);
    assert!(!first.is_abnormal);
    let mut again = tcp_packet(1000, 1, 0x10, 100, &[0; 10]);
    t.analyze_packet(&mut again);
    assert!(again.is_abnormal);
    assert_eq!(again.info, " [Retransmission]");
    let mut ahead = tcp_packet(2000, 1, 0x10, 0, &[0; 10]);
    t.analyze_packet(&mut ahead);
    assert_eq!(ahead.info, " [Out-of-Order, ZeroWindow]");
    let mut rst = tcp_packet(1010, 1, 0x04, 100, &[]);
    t.analyze_packet(&mut rst);
    assert_eq!(rst.info, " [RST]");
    let mut fresh = tcp_packet(1000, 1, 0x10, 100, &[0; 10]);
    t.analyze_packet(&mut fresh);
    assert!(!fresh.is_abnormal);
}

#[test]
fn flows_are_judged_apart() {
    let mut t = TcpFlowTracker::new();
    t.analyze_packet(&mut tcp_packet(1000, 1, 0x10, 100, &[0; 10]));
    let mut back = tcp_packet(1000, 1, 0x10, 100, &[0; 10]);
    std::mem::swap(&mut back.src_addr, &mut back.dst_addr);
    std::mem::swap(&mut back.src_port, &mut back.dst_port);
    t.analyze_packet(&mut back);
    assert!(!back.is_abnormal);
    let mut other = tcp_packet(1000, 1, 0x10, 100, &[0; 10]);
    other.src_port = Some(7);
    t.analyze_packet(&mut other);
    assert!(!other.is_abnormal);
}

#[test]
fn last_segments_are_kept() {
    let mut t = TcpFlowTracker::new();
    for i in 0..12u32 {
        t.analyze_packet(&mut tcp_packet(4_000_000_000 + i, 1, 0x10, 100, &[0; 1]));
    }
    let mut forgotten = tcp_packet(4_000_000_000 + 20, 1, 0x10, 100, &[0; 1]);
    t.analyze_packet(&mut forgotten);
    assert_eq!(forgotten.info, " [Out-of-Order]");

    let mut t = TcpFlowTracker::new();
    t.analyze_packet(&mut tcp_packet(9, 1, 0x10, 100, &[0; 1]));
    for i in 0..10u32 {
        t.analyze_packet(&mut tcp_packet(1000 + 10 * i, 1, 0x10, 100, &[0; 1]));
    }
    let mut kept = tcp_packet(1000, 1, 0x10, 100, &[0; 1]);
    t.analyze_packet(&mut kept);
    assert_eq!(kept.info, " [Retransmission, Out-of-Order]");
    let mut gone = tcp_packet(1000, 1, 0x10, 100, &[0; 2]);
    t.analyze_packet(&mut gone);
    assert_eq!(gone.info, " [Out-of-Order]");
}

#[test]
fn repeated_acknowledgements_are_counted() {
    let mut t = TcpFlowTracker::new();
    for _ in 0..3 {
        let mut p = tcp_packet(1, 7, 0x10, 100, &[]);
        t.analyze_packet(&mut p);
        assert!(!p.is_abnormal);
    }
    let mut p = tcp_packet(1, 7, 0x10, 100, &[]);
    t.analyze_packet(&mut p);
    assert_eq!(p.info, " [Dup ACK #3]");
    t.cleanup(0);
    let mut p = tcp_packet(1, 7, 0x10, 100, &[]);
    t.analyze_packet(&mut p);
    assert!(!p.is_abnormal);
}

#[test]
fn service_discovery_is_decoded() {
    let d = offer(0, 0x10);
    assert!(check_sd_in_range(&d));
    let info = decode_someip_sd(&d).unwrap();
    assert_eq!(info.message_type, "NOTIFICATION");
    assert_eq!(
        info.entries,
        vec!["OfferService(0x1234:0x0001 v1.2 TTL=3 @ 10.0.0.1/UDP:30501)"]
    );
    assert_eq!(info.endpoints.len(), 1);
    assert_eq!(info.endpoints[0].key(), "UDP:10.0.0.1:30501");
    assert!(decode_someip_sd(&[0; 4]).is_none());
    assert!(decode_someip_sd(&someip(1, 2, 3, 0, 0, &[])).is_none());
}

#[test]
fn options_beyond_the_last_are_refused() {
    let d = offer(7, 0);
    assert!(!check_sd_in_range(&d));
    assert!(try_decode_someip_sd(&d).is_none());
    assert!(try_decode_someip_sd(&offer(0, 0x10)).unwrap().is_some());
    assert!(try_decode_someip_sd(&[]).unwrap().is_none());
}

#[test]
fn messages_are_decoded() {
    let event = someip(0x1234, 0x8001, 0x0000_0001, 0x02, 0, &[1, 2]);
    assert_eq!(
        decode_someip(&event).as_deref(),
        Some("NOTIFY svc=0x1234 evt=0x8001 client=0x0000 sess=0x0001 Len=2")
    );
    let request = someip(0x1234, 0x0021, 0x00ab_0002, 0x00, 0, &[]);
    assert_eq!(
        decode_someip(&request).as_deref(),
        Some("REQ svc=0x1234 method=0x0021 client=0x00ab sess=0x0002 Len=0")
    );
    let error = someip(0x1234, 0x0021, 0, 0x81, 2, &[]);
    assert_eq!(
        decode_someip(&error).as_deref(),
        Some("ERR svc=0x1234 method=0x0021 client=0x0000 sess=0x0000 RC=UNKNOWN_SERVICE Len=0")
    );
    let odd = someip(0x1234, 0x0021, 0, 0x80, 0x20, &[]);
    assert!(decode_someip(&odd).unwrap().contains("RESP"));
    assert!(decode_someip(&odd).unwrap().contains(" RC=0x20 "));
    assert!(decode_someip(&offer(0, 0x10)).is_none());
    assert!(decode_someip(&[0; 15]).is_none());
}

#[test]
fn lines_show_decoded_services() {
    let sd = udp_packet([10, 0, 0, 9], 30490, [224, 244, 224, 245], 30490, &offer(0, 0x10));
    let line = PcapLogLine::new(parse_packet_data(&sd, at(1)).unwrap(), 1);
    let mut state = PcapFileState::restore(0, vec![], vec![]);
    let config = PcapConfig::default();
    let base = line.message();
    let shown = line.display_message(&config, &mut state, &span_text);
    assert_eq!(
        shown,
        format!("{base} [SOME/IP-SD NOTIFICATION OfferService(0x1234:0x0001 v1.2 TTL=3 @ 10.0.0.1/UDP:30501)]")
    );
    assert!(state.is_known_someip_endpoint("UDP", "10.0.0.1", 30501));

    let event = someip(0x1234, 0x8001, 1, 0x02, 0, &[1, 2]);
    let d = udp_packet([10, 0, 0, 1], 30501, [10, 0, 0, 2], 40000, &event);
    let line = PcapLogLine::new(parse_packet_data(&d, at(1)).unwrap(), 2);
    let shown = line.display_message(&config, &mut state, &span_text);
    assert!(shown.ends_with("[SOME/IP NOTIFY svc=0x1234 evt=0x8001 client=0x0000 sess=0x0001 Len=2]"));
    let mut blank = PcapFileState::restore(0, vec![], vec![]);
    assert_eq!(line.display_message(&config, &mut blank, &span_text), line.message());
    assert_eq!(line.line_number(), 2);
}

#[test]
fn decoding_can_be_switched_on_for_a_group() {
    let d = udp_packet([10, 0, 0, 9], 5, [224, 0, 0, 7], 6, &offer(0, 0x10));
    let line = PcapLogLine::new(parse_packet_data(&d, at(1)).unwrap(), 1);
    let mut state = PcapFileState::restore(0, vec![], vec![]);
    let (key, label) = line.sd_menu_entry(&state).unwrap();
    assert_eq!(key, "224.0.0.7:6");
    assert!(label.ends_with("Enable SOME/IP SD decoding for 224.0.0.7:6"));
    assert!(state.toggle_someip_sd(key.clone()));
    assert!(state.is_someip_sd_active("224.0.0.7:6"));
    let (_, label) = line.sd_menu_entry(&state).unwrap();
    assert!(label.ends_with("Disable SOME/IP SD decoding for 224.0.0.7:6"));
    let shown = line.display_message(&PcapConfig::default(), &mut state, &span_text);
    assert!(shown.contains("[SOME/IP-SD NOTIFICATION"));
    assert!(!state.toggle_someip_sd(key));
    assert!(!state.is_someip_sd_active("224.0.0.7:6"));
}

#[test]
fn offset_and_addresses_are_shown() {
    let d = udp_packet([10, 0, 0, 1], 5, [10, 0, 0, 2], 6, &[]);
    let line = PcapLogLine::new(parse_packet_data(&d, at(100)).unwrap(), 1);
    let mut state = PcapFileState::restore(1500, vec![], vec![]);
    let config = PcapConfig { show_mac_addresses: true };
    assert_eq!(line.timestamp(&config, &state), Timestamp { secs: 101, nanos: 500_000_000 });
    let shown = line.display_message(&config, &mut state, &span_text);
    assert_eq!(
        shown,
        format!("aa:bb:cc:dd:ee:ff \u{2192} 02:00:00:00:00:01 | [1500 ms] {}", line.message())
    );
    assert!(line.can_display(&config, &state));
    assert_eq!(
        line.try_display_message(&config, &mut state, &span_text).as_deref(),
        Some(shown.as_str())
    );
}

#[test]
fn calibration_moves_a_capture() {
    let d = udp_packet([10, 0, 0, 1], 5, [10, 0, 0, 2], 6, &[]);
    let line = PcapLogLine::new(parse_packet_data(&d, at(100)).unwrap(), 1);
    let config = PcapConfig::default();
    let mut state = PcapFileState::restore(0, vec!["k".to_string()], vec![]);
    line.start_calibration(&mut state);
    let result = CalibrationResult::Confirmed { target_time: at(90), apply_to_all_apps: false };
    assert!(state.calibration().can_finish_calibration(result));
    assert!(state.finish_calibration(result));
    assert_eq!(line.timestamp(&config, &state), at(90));
    assert_eq!(state.decoding_list(), vec!["k"]);
    let back = PcapFileState::restore(
        state.time_offset_ms(),
        state.decoding_list(),
        state.endpoint_list(),
    );
    assert!(back.is_someip_sd_active("k"));
    assert_eq!(back.time_offset_ms(), -10_000);
}

#[test]
fn endpoints_are_discovered_first() {
    let d = udp_packet([10, 0, 0, 9], 30490, [224, 244, 224, 245], 30490, &offer(0, 0x10));
    let lines = vec![PcapLogLine::new(parse_packet_data(&d, at(1)).unwrap(), 1)];
    let mut state = PcapFileState::restore(0, vec![], vec![]);
    pre_discover_someip_endpoints(&lines, &mut state);
    assert_eq!(state.endpoint_list(), vec!["UDP:10.0.0.1:30501"]);
    let mut state = PcapFileState::restore(0, vec![], vec![]);
    assert!(try_pre_discover_someip_endpoints(&lines, &mut state));
    let bad = udp_packet([10, 0, 0, 9], 30490, [224, 244, 224, 245], 30490, &offer(9, 0));
    let lines = vec![PcapLogLine::new(parse_packet_data(&bad, at(1)).unwrap(), 1)];
    assert!(!try_pre_discover_someip_endpoints(&lines, &mut state));
    state.add_someip_endpoints(&vec![SomeIpEndpoint {
        addr: "10.0.0.3".to_string(),
        port: 9,
        protocol: "TCP",
    }]);
    assert!(state.is_known_someip_endpoint("TCP", "10.0.0.3", 9));
}

fn legacy_capture(packets: &[(u32, u32, Vec<u8>)]) -> Vec<u8> {
    let mut d = vec![0xd4, 0xc3, 0xb2, 0xa1];
    d.extend_from_slice(&2u16.to_le_bytes());
    d.extend_from_slice(&4u16.to_le_bytes());
    d.extend_from_slice(&0u32.to_le_bytes());
    d.extend_from_slice(&0u32.to_le_bytes());
    d.extend_from_slice(&65535u32.to_le_bytes());
    d.extend_from_slice(&1u32.to_le_bytes());
    for (sec, usec, data) in packets {
        d.extend_from_slice(&sec.to_le_bytes());
        d.extend_from_slice(&usec.to_le_bytes());
        d.extend_from_slice(&(data.len() as u32).to_le_bytes());
        d.extend_from_slice(&(data.len() as u32).to_le_bytes());
        d.extend_from_slice(data);
    }
    d
}

fn block(kind: u32, body: &[u8]) -> Vec<u8> {
    let total = (12 + body.len()) as u32;
    let mut d = Vec::new();
    d.extend_from_slice(&kind.to_le_bytes());
    d.extend_from_slice(&total.to_le_bytes());
    d.extend_from_slice(body);
    d.extend_from_slice(&total.to_le_bytes());
    d
}

fn pcapng_capture(tsresol: Option<u8>, ticks: u64, data: &[u8]) -> Vec<u8> {
    let mut section = Vec::new();
    section.extend_from_slice(&0x1a2b_3c4du32.to_le_bytes());
    section.extend_from_slice(&1u16.to_le_bytes());
    section.extend_from_slice(&0u16.to_le_bytes());
    section.extend_from_slice(&(-1i64).to_le_bytes());
    let mut d = block(0x0a0d_0d0a, &section);
    let mut interface = Vec::new();
    interface.extend_from_slice(&1u16.to_le_bytes());
    interface.extend_from_slice(&0u16.to_le_bytes());
    interface.extend_from_slice(&65535u32.to_le_bytes());
    if let Some(r) = tsresol {
        interface.extend_from_slice(&9u16.to_le_bytes());
        interface.extend_from_slice(&1u16.to_le_bytes());
        interface.extend_from_slice(&[r, 0, 0, 0]);
        interface.extend_from_slice(&[0, 0, 0, 0]);
    }
    d.extend_from_slice(&block(1, &interface));
    let mut packet = Vec::new();
    packet.extend_from_slice(&0u32.to_le_bytes());
    packet.extend_from_slice(&((ticks >> 32) as u32).to_le_bytes());
    packet.extend_from_slice(&(ticks as u32).to_le_bytes());
    packet.extend_from_slice(&(data.len() as u32).to_le_bytes());
    packet.extend_from_slice(&(data.len() as u32).to_le_bytes());
    packet.extend_from_slice(data);
    while packet.len() % 4 != 0 {
        packet.push(0);
    }
    d.extend_from_slice(&block(6, &packet));
    d
}

#[test]
fn legacy_capture_is_read() {
    let d = legacy_capture(&[
        (10, 250_000, udp_packet([1, 1, 1, 1], 1, [2, 2, 2, 2], 2, &[])),
        (11, 0, vec![0; 5]),
        (12, 0, udp_packet([1, 1, 1, 1], 1, [2, 2, 2, 2], 3, &[])),
    ]);
    let lines = try_parse_pcap_to_lines(&d).unwrap();
    assert_eq!(lines.len(), 2);
    assert_eq!(lines[0].packet_info.timestamp, Timestamp { secs: 10, nanos: 250_000_000 });
    assert_eq!(lines[0].line_number, 1);
    assert_eq!(lines[1].packet_info.dst_port, Some(3));
    assert_eq!(lines[1].line_number, 3);
}

#[test]
fn pcapng_capture_is_read() {
    let data = udp_packet([1, 1, 1, 1], 1, [2, 2, 2, 2], 2, &[]);
    let lines = try_parse_pcap_to_lines(&pcapng_capture(None, 5_000_001, &data)).unwrap();
    assert_eq!(lines.len(), 1);
    assert_eq!(lines[0].packet_info.timestamp, Timestamp { secs: 5, nanos: 1_000 });
    let lines = try_parse_pcap_to_lines(&pcapng_capture(Some(9), 5_000_000_001, &data)).unwrap();
    assert_eq!(lines[0].packet_info.timestamp, Timestamp { secs: 5, nanos: 1 });
    let lines = try_parse_pcap_to_lines(&pcapng_capture(Some(0x81), 3, &data)).unwrap();
    assert_eq!(lines[0].packet_info.timestamp, Timestamp { secs: 1, nanos: 500_000_000 });
}

#[test]
fn bad_captures_are_refused() {
    assert!(matches!(try_parse_pcap_to_lines(&[1, 2]), Err(CaptureError::NoMagic)));
    assert!(matches!(
        try_parse_pcap_to_lines(&[1, 2, 3, 4, 5]),
        Err(CaptureError::UnknownFormat)
    ));
    assert!(matches!(
        try_parse_pcap_to_lines(&[0xd4, 0xc3, 0xb2, 0xa1, 0]),
        Err(CaptureError::Refused(PcapFormat::Legacy, _))
    ));
    assert!(matches!(
        try_parse_pcap_to_lines(&legacy_capture(&[])),
        Err(CaptureError::NoPackets)
    ));
    let data = udp_packet([1, 1, 1, 1], 1, [2, 2, 2, 2], 2, &[]);
    let no_ticks = pcapng_capture(Some(64), 1, &data);
    assert!(matches!(try_parse_pcap_to_lines(&no_ticks), Err(CaptureError::NoTicks)));
    let legacy = legacy_capture(&[(1, 0, data)]);
    assert_eq!(parse_pcap_to_lines(&legacy).unwrap().len(), 1);
    assert_eq!(CaptureError::UnknownFormat.message(), "Unknown pcap format");
}

#[test]
fn formats_are_told() {
    assert!(matches!(detect_pcap_format(&[0x0a, 0x0d, 0x0d, 0x0a]), Ok(PcapFormat::PcapNG)));
    assert!(matches!(detect_pcap_format(&[0xa1, 0xb2, 0x3c, 0x4d]), Ok(PcapFormat::Legacy)));
    assert!(matches!(detect_pcap_format(&[0xa1, 0xb2]), Err(CaptureError::NoMagic)));
}

#[test]
fn times_of_packets_are_read() {
    assert_eq!(pcap_ts_to_datetime(1, 999_999), Some(Timestamp { secs: 1, nanos: 999_999_000 }));
    assert_eq!(pcap_ts_to_datetime(1, 2_000_000), None);
    assert_eq!(
        ticks_to_datetime(0, 1_500_000, 1_000_000),
        Some(Timestamp { secs: 1, nanos: 500_000_000 })
    );
}

#[test]
fn blocks_build_lines() {
    let mut p = CaptureParser::new();
    assert_eq!(p.rate(), 1_000_000);
    p.push_block(PcapFormat::PcapNG, &PcapBlock::Interface(vec![(9, vec![3])]), at(50));
    assert_eq!(p.rate(), 1_000);
    let data = udp_packet([1, 1, 1, 1], 1, [2, 2, 2, 2], 2, &[]);
    p.push_block(PcapFormat::PcapNG, &PcapBlock::Simple(data.clone()), at(50));
    p.push_block(PcapFormat::PcapNG, &PcapBlock::Other, at(50));
    p.push_block(PcapFormat::PcapNG, &PcapBlock::Legacy(7, 0, data.clone()), at(50));
    p.push_block(PcapFormat::PcapNG, &PcapBlock::Simple(vec![1, 2, 3]), at(50));
    p.push_block(PcapFormat::PcapNG, &PcapBlock::Enhanced(0, 2_000, data), at(50));
    let lines = p.into_lines();
    assert_eq!(lines.len(), 2);
    assert_eq!(lines[0].packet_info.timestamp, at(50));
    assert_eq!(lines[0].line_number, 1);
    assert_eq!(lines[1].packet_info.timestamp, at(2));
    assert_eq!(lines[1].line_number, 3);
}

#[test]
fn short_process_blocks_end_a_capture() {
    let data = udp_packet([1, 1, 1, 1], 1, [2, 2, 2, 2], 2, &[]);
    let whole = pcapng_capture(None, 1_000_000, &data);
    for length in 0..12u32 {
        for (kind, size) in [
            (0x8000_0001u32.to_le_bytes(), length.to_le_bytes()),
            (0x8000_0001u32.to_be_bytes(), length.to_be_bytes()),
        ] {
            let mut d = whole.clone();
            d.extend_from_slice(&kind);
            d.extend_from_slice(&size);
            d.extend_from_slice(&size);
            d.extend_from_slice(&whole);
            let lines = try_parse_pcap_to_lines(&d).unwrap();
            assert_eq!(lines.len(), 1);
            assert_eq!(lines[0].packet_info.timestamp, at(1));
        }
    }
    let mut d = whole.clone();
    d.extend_from_slice(&block(0x8000_0001, &[]));
    d.extend_from_slice(&block(0x8000_0001, &7u32.to_le_bytes()));
    d.extend_from_slice(&whole);
    let lines = try_parse_pcap_to_lines(&d).unwrap();
    assert!(lines.iter().all(|l| l.packet_info.timestamp == at(1)));
    let mut d = whole.clone();
    d.extend_from_slice(&block(0x8000_0001, &7u32.to_le_bytes()));
    d.extend_from_slice(&whole);
    let lines = try_parse_pcap_to_lines(&d).unwrap();
    assert_eq!(lines.len(), 2);
    assert_eq!(lines[1].line_number, 2);
}

#[test]
fn times_of_classic_packets_may_look_like_blocks() {
    let data = udp_packet([1, 1, 1, 1], 1, [2, 2, 2, 2], 2, &[]);
    let d = legacy_capture(&[(1, 0, data.clone()), (0x8000_0001, 5, data)]);
    let lines = try_parse_pcap_to_lines(&d).unwrap();
    assert_eq!(lines.len(), 2);
    assert_eq!(
        lines[1].packet_info.timestamp,
        Timestamp { secs: 0x8000_0001, nanos: 5_000 }
    );
}

#[test]
fn file_is_handed_out_in_chunks() {
    let data = udp_packet([1, 1, 1, 1], 1, [2, 2, 2, 2], 2, &[]);
    let d = legacy_capture(&[(1, 0, data.clone()), (2, 0, data.clone()), (3, 0, data)]);
    let lines = try_parse_pcap_to_lines(&d).unwrap();
    let mut state = PcapFileState::restore(0, vec![], vec![]);
    let mut file = PcapFileType::open(lines, 99, &mut state).unwrap();
    assert_eq!(file.file_size(), 99);
    assert_eq!(file.read(2).len(), 2);
    assert_eq!(file.progress(), (2, 3));
    assert_eq!(file.read(2).len(), 1);
    assert_eq!(file.read(2).len(), 0);
}

#[test]
fn large_packets_are_read_whole() {
    let big = udp_packet([1, 1, 1, 1], 5, [2, 2, 2, 2], 6, &vec![7; 65_500 - 42]);
    let small = udp_packet([1, 1, 1, 1], 5, [2, 2, 2, 2], 6, b"end");
    assert_eq!(big.len(), 65_500);
    let d = legacy_capture(&[(1, 0, big), (2, 0, small)]);
    let lines = parse_pcap_to_lines(&d).unwrap();
    assert_eq!(lines.len(), 2);
    assert_eq!(lines[0].packet_info.timestamp, at(1));
    assert_eq!(lines[1].packet_info.timestamp, at(2));
}
