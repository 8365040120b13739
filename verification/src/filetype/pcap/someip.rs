//! SOME/IP messages and the service discovery that announces their endpoints.

use crate::net;
use crate::text;
use someip_parse::sd::{SdEntrySlice, SdHeader, SdOptionSlice};
use someip_parse::SomeipMsgSlice;
use vstd::prelude::*;

verus! {

/// What a SOME/IP message says.
#[derive(Debug)]
pub struct SomeIpMessage {
    pub service_id: u16,
    pub event_or_method_id: u16,
    pub is_event: bool,
    pub is_sd: bool,
    pub request_id: u32,
    /// The kind of message: 0 a request, 1 one without an answer, 2 a notification,
    /// 128 a response, 129 an error.
    pub message_type: u8,
    pub return_code: u8,
    pub is_tp: bool,
    pub payload: Vec<u8>,
}

/// The number of bytes that a SOME/IP message announces behind its first eight.
pub open spec fn announced_length(d: Seq<u8>) -> int {
    net::be32(d[4], d[5], d[6], d[7])
}

/// Whether bytes begin with a SOME/IP message: of protocol version 1, of a known kind,
/// and as long as announced.
pub open spec fn is_someip(d: Seq<u8>) -> bool {
    &&& d.len() >= 16
    &&& announced_length(d) >= 8
    &&& d.len() >= announced_length(d) + 8
    &&& d[12] == 1
    &&& is_segmented(d) ==> announced_length(d) >= 12
    &&& message_kind(d) == 0 || message_kind(d) == 1 || message_kind(d) == 2 || message_kind(d)
        == 0x80 || message_kind(d) == 0x81
}

/// Whether a SOME/IP message is a segment of a longer one.
pub open spec fn is_segmented(d: Seq<u8>) -> bool {
    d[14] & 0x20 != 0
}

/// The kind of a SOME/IP message.
pub open spec fn message_kind(d: Seq<u8>) -> u8 {
    d[14] & 0xdf
}

/// Whether a SOME/IP message belongs to service discovery.
pub open spec fn is_discovery(d: Seq<u8>) -> bool {
    net::be32(d[0], d[1], d[2], d[3]) == 0xffff8100
}

/// The payload of a SOME/IP message.
pub open spec fn someip_payload(d: Seq<u8>) -> Seq<u8> {
    d.subrange(if is_segmented(d) {
        20
    } else {
        16
    }, announced_length(d) + 8)
}

/// Reads a SOME/IP message with `someip_parse::SomeipMsgSlice::from_slice` and its
/// accessors.
///
/// It is there exactly where the bytes begin with a whole message; its fields are the
/// numbers at their places in the header, the high byte first.
#[verifier::external_body]
fn read_someip(d: &[u8]) -> (r: Option<SomeIpMessage>)
    ensures
        r is Some <==> is_someip(d@),
        r matches Some(m) ==> {
            &&& m.service_id == net::be16(d@[0], d@[1])
            &&& m.event_or_method_id == net::be16(d@[2], d@[3])
            &&& m.is_event == (d@[2] & 0x80 != 0)
            &&& m.is_sd == is_discovery(d@)
            &&& m.request_id == net::be32(d@[8], d@[9], d@[10], d@[11])
            &&& m.message_type == message_kind(d@)
            &&& m.return_code == d@[15]
            &&& m.is_tp == is_segmented(d@)
            &&& m.payload@ == someip_payload(d@)
        },
{
    let m = SomeipMsgSlice::from_slice(d).ok()?;
    Some(
        SomeIpMessage {
            service_id: m.service_id(),
            event_or_method_id: m.event_or_method_id(),
            is_event: m.is_event(),
            is_sd: m.is_someip_sd(),
            request_id: m.request_id(),
            message_type: m.message_type() as u8,
            return_code: m.return_code(),
            is_tp: m.is_tp(),
            payload: m.payload().to_vec(),
        },
    )
}

/// What an entry of service discovery is about.
#[derive(Debug, Clone, Copy, PartialEq, Eq, Structural)]
pub enum SdEntryKind {
    /// A service that is looked for (type 0) or offered (type 1).
    Service { entry_type: u8, major_version: u8, minor_version: u32 },
    /// An event group that is subscribed to (type 6), or the answer to that (type 7).
    Eventgroup { entry_type: u8, eventgroup_id: u16 },
}

/// An entry of service discovery, with the two runs of options that belong to it.
#[derive(Debug, Clone, Copy, PartialEq, Eq, Structural)]
pub struct SdEntry {
    pub kind: SdEntryKind,
    pub first_index: u8,
    pub first_count: u8,
    pub second_index: u8,
    pub second_count: u8,
    pub service_id: u16,
    pub instance_id: u16,
    pub ttl: u32,
}

/// An option of service discovery: an address with the number of its transport
/// protocol and its port, or something that is not shown.
#[derive(Debug, Clone, Copy)]
pub enum SdOption {
    Ipv4Endpoint([u8; 4], u8, u16),
    Ipv6Endpoint([u8; 16], u8, u16),
    Ipv4Multicast([u8; 4], u8, u16),
    Ipv6Multicast([u8; 16], u8, u16),
    Other,
}

/// The entries that `someip_parse` finds in the payload of a service discovery message.
pub uninterp spec fn sd_entries(payload: Seq<u8>) -> Option<Seq<SdEntry>>;

/// The options that `someip_parse` finds in the payload of a service discovery message.
pub uninterp spec fn sd_options(payload: Seq<u8>) -> Option<Seq<SdOption>>;

/// Reads the entries of a service discovery message with `someip_parse::sd::SdHeader::read`
/// and `SdHeader::entries`. They are a function of the bytes.
#[verifier::external_body]
fn read_sd_entries(payload: &[u8]) -> (r: Option<Vec<SdEntry>>)
    ensures
        match r {
            Some(v) => sd_entries(payload@) == Some(v@),
            None => sd_entries(payload@) is None,
        },
{
    let header = SdHeader::read(&mut std::io::Cursor::new(payload)).ok()?;
    Some(header.entries().map(|e| SdEntry {
        first_index: e.start_index_options_1(), first_count: e.number_of_options_1().value(),
        second_index: e.start_index_options_2(), second_count: e.number_of_options_2().value(),
        service_id: e.service_id(), instance_id: e.instance_id(), ttl: e.ttl().value(),
        kind: match e {
            SdEntrySlice::Service(s) => SdEntryKind::Service { entry_type: s.entry_type() as u8,
                major_version: s.major_version(), minor_version: s.minor_version() },
            SdEntrySlice::Eventgroup(g) => SdEntryKind::Eventgroup {
                entry_type: g.entry_type() as u8, eventgroup_id: g.eventgroup_id() },
        },
    }).collect())
}

/// Reads the options of a service discovery message with `someip_parse::sd::SdHeader::read`
/// and `SdHeader::options`. They are a function of the bytes.
#[verifier::external_body]
fn read_sd_options(payload: &[u8]) -> (r: Option<Vec<SdOption>>)
    ensures
        match r {
            Some(v) => sd_options(payload@) == Some(v@),
            None => sd_options(payload@) is None,
        },
{
    let header = SdHeader::read(&mut std::io::Cursor::new(payload)).ok()?;
    Some(header.options().map(|o| match o {
        SdOptionSlice::Ipv4Endpoint(e) =>
            SdOption::Ipv4Endpoint(e.ipv4_address(), e.transport_protocol().into(), e.port()),
        SdOptionSlice::Ipv6Endpoint(e) =>
            SdOption::Ipv6Endpoint(e.ipv6_address(), e.transport_protocol().into(), e.port()),
        SdOptionSlice::Ipv4Multicast(e) =>
            SdOption::Ipv4Multicast(e.ipv4_address(), e.transport_protocol().into(), e.port()),
        SdOptionSlice::Ipv6Multicast(e) =>
            SdOption::Ipv6Multicast(e.ipv6_address(), e.transport_protocol().into(), e.port()),
        _ => SdOption::Other,
    }).collect())
}

/// An address at which a SOME/IP service was announced.
#[derive(Debug)]
pub struct SomeIpEndpoint {
    pub addr: String,
    pub port: u16,
    /// `"TCP"`, `"UDP"` or `"?"`.
    pub protocol: &'static str,
}

/// An announced address, with its texts as sequences.
pub struct EndpointView {
    pub addr: Seq<char>,
    pub port: u16,
    pub protocol: Seq<char>,
}

impl View for SomeIpEndpoint {
    type V = EndpointView;

    open spec fn view(&self) -> EndpointView {
        EndpointView { addr: self.addr@, port: self.port, protocol: self.protocol@ }
    }
}

/// The text by which a known endpoint is found again.
pub open spec fn endpoint_key(protocol: Seq<char>, addr: Seq<char>, port: u16) -> Seq<char> {
    protocol + ":"@ + addr + ":"@ + text::dec(port as nat)
}

/// Writes the text by which a known endpoint is found again.
pub fn format_endpoint_key(protocol: &str, addr: &str, port: u16) -> (r: String)
    ensures
        r@ == endpoint_key(protocol@, addr@, port),
{
    let mut s = String::from_str(protocol);
    s.append(":");
    s.append(addr);
    s.append(":");
    text::push_dec(&mut s, port as u64);
    s
}

impl SomeIpEndpoint {
    /// The text by which the endpoint is found again, such as `"TCP:10.0.0.1:30000"`.
    pub fn key(&self) -> (r: String)
        ensures
            r@ == endpoint_key(self@.protocol, self@.addr, self@.port),
    {
        format_endpoint_key(self.protocol, self.addr.as_str(), self.port)
    }
}

/// What a service discovery message says.
#[derive(Debug)]
pub struct SomeIpSdInfo {
    pub message_type: String,
    pub entries: Vec<String>,
    pub endpoints: Vec<SomeIpEndpoint>,
}

/// What a service discovery message says, with its texts as sequences.
pub struct SdInfoView {
    pub message_type: Seq<char>,
    pub entries: Seq<Seq<char>>,
    pub endpoints: Seq<EndpointView>,
}

/// The views of a list of endpoints.
pub open spec fn endpoint_views(v: Seq<SomeIpEndpoint>) -> Seq<EndpointView> {
    v.map_values(|e: SomeIpEndpoint| e@)
}

impl View for SomeIpSdInfo {
    type V = SdInfoView;

    open spec fn view(&self) -> SdInfoView {
        SdInfoView {
            message_type: self.message_type@,
            entries: text::texts(self.entries@),
            endpoints: endpoint_views(self.endpoints@),
        }
    }
}

/// A view of a decoded message that may be missing.
pub open spec fn opt_sd_info(o: Option<SomeIpSdInfo>) -> Option<SdInfoView> {
    match o {
        Some(i) => Some(i@),
        None => None,
    }
}

/// The name of a transport protocol.
pub open spec fn protocol_name(protocol: u8) -> Seq<char> {
    if protocol == 6 {
        "TCP"@
    } else if protocol == 17 {
        "UDP"@
    } else {
        "?"@
    }
}

fn proto_str(protocol: u8) -> (r: &'static str)
    ensures
        r@ == protocol_name(protocol),
{
    match protocol {
        6 => "TCP",
        17 => "UDP",
        _ => "?",
    }
}

/// The dotted text of the four bytes of an address.
pub open spec fn ipv4_of(addr: [u8; 4]) -> Seq<char> {
    net::ipv4_text(addr@[0], addr@[1], addr@[2], addr@[3])
}

fn format_ipv4_of(addr: &[u8; 4]) -> (r: String)
    ensures
        r@ == ipv4_of(*addr),
{
    net::format_ipv4(addr[0], addr[1], addr[2], addr[3])
}

/// The endpoint that an option announces, where it announces one.
pub open spec fn option_endpoint(o: SdOption) -> Option<EndpointView> {
    match o {
        SdOption::Ipv4Endpoint(addr, protocol, port) => Some(
            EndpointView { addr: ipv4_of(addr), port, protocol: protocol_name(protocol) },
        ),
        SdOption::Ipv6Endpoint(addr, protocol, port) => Some(
            EndpointView { addr: net::ipv6_text(addr@), port, protocol: protocol_name(protocol) },
        ),
        SdOption::Ipv4Multicast(addr, protocol, port) => Some(
            EndpointView { addr: ipv4_of(addr), port, protocol: protocol_name(protocol) },
        ),
        SdOption::Ipv6Multicast(addr, protocol, port) => Some(
            EndpointView { addr: net::ipv6_text(addr@), port, protocol: protocol_name(protocol) },
        ),
        SdOption::Other => None,
    }
}

/// The text of an option: a prefix, the address, a suffix, the protocol and the port.
pub open spec fn address_text(
    before: Seq<char>,
    addr: Seq<char>,
    after: Seq<char>,
    protocol: u8,
    port: u16,
) -> Seq<char> {
    before + addr + after + protocol_name(protocol) + ":"@ + text::dec(port as nat)
}

/// An option as it is shown, where it is shown.
pub open spec fn option_text(o: SdOption) -> Option<Seq<char>> {
    match o {
        SdOption::Ipv4Endpoint(addr, protocol, port) => Some(
            address_text(""@, ipv4_of(addr), "/"@, protocol, port),
        ),
        SdOption::Ipv6Endpoint(addr, protocol, port) => Some(
            address_text("["@, net::ipv6_text(addr@), "]/"@, protocol, port),
        ),
        SdOption::Ipv4Multicast(addr, protocol, port) => Some(
            address_text("mcast:"@, ipv4_of(addr), "/"@, protocol, port),
        ),
        SdOption::Ipv6Multicast(addr, protocol, port) => Some(
            address_text("mcast:["@, net::ipv6_text(addr@), "]/"@, protocol, port),
        ),
        SdOption::Other => None,
    }
}

fn format_address(before: &str, addr: String, after: &str, protocol: u8, port: u16) -> (r: String)
    ensures
        r@ == address_text(before@, addr@, after@, protocol, port),
{
    let mut s = String::from_str(before);
    s.append(addr.as_str());
    s.append(after);
    s.append(proto_str(protocol));
    s.append(":");
    text::push_dec(&mut s, port as u64);
    s
}

fn format_ipv6_of(addr: &[u8; 16]) -> (r: String)
    ensures
        r@ == net::ipv6_text(addr@),
{
    net::format_ipv6_short(vstd::array::array_as_slice(addr))
}

fn format_option(o: &SdOption) -> (r: Option<String>)
    ensures
        text::opt_text(r) == option_text(*o),
{
    match o {
        SdOption::Ipv4Endpoint(addr, protocol, port) => Some(
            format_address("", format_ipv4_of(addr), "/", *protocol, *port),
        ),
        SdOption::Ipv6Endpoint(addr, protocol, port) => Some(
            format_address("[", format_ipv6_of(addr), "]/", *protocol, *port),
        ),
        SdOption::Ipv4Multicast(addr, protocol, port) => Some(
            format_address("mcast:", format_ipv4_of(addr), "/", *protocol, *port),
        ),
        SdOption::Ipv6Multicast(addr, protocol, port) => Some(
            format_address("mcast:[", format_ipv6_of(addr), "]/", *protocol, *port),
        ),
        SdOption::Other => None,
    }
}

fn extract_endpoint(o: &SdOption) -> (r: Option<SomeIpEndpoint>)
    ensures
        match r {
            Some(e) => option_endpoint(*o) == Some(e@),
            None => option_endpoint(*o) is None,
        },
{
    match o {
        SdOption::Ipv4Endpoint(addr, protocol, port) => Some(
            SomeIpEndpoint {
                addr: format_ipv4_of(addr),
                port: *port,
                protocol: proto_str(*protocol),
            },
        ),
        SdOption::Ipv6Endpoint(addr, protocol, port) => Some(
            SomeIpEndpoint {
                addr: format_ipv6_of(addr),
                port: *port,
                protocol: proto_str(*protocol),
            },
        ),
        SdOption::Ipv4Multicast(addr, protocol, port) => Some(
            SomeIpEndpoint {
                addr: format_ipv4_of(addr),
                port: *port,
                protocol: proto_str(*protocol),
            },
        ),
        SdOption::Ipv6Multicast(addr, protocol, port) => Some(
            SomeIpEndpoint {
                addr: format_ipv6_of(addr),
                port: *port,
                protocol: proto_str(*protocol),
            },
        ),
        SdOption::Other => None,
    }
}

/// The texts of those options that are shown, in order.
pub open spec fn option_texts(opts: Seq<SdOption>) -> Seq<Seq<char>>
    decreases opts.len(),
{
    if opts.len() == 0 {
        Seq::empty()
    } else {
        match option_text(opts.last()) {
            Some(t) => option_texts(opts.drop_last()).push(t),
            None => option_texts(opts.drop_last()),
        }
    }
}

/// The endpoints that options announce, in order.
pub open spec fn option_endpoints(opts: Seq<SdOption>) -> Seq<EndpointView>
    decreases opts.len(),
{
    if opts.len() == 0 {
        Seq::empty()
    } else {
        match option_endpoint(opts.last()) {
            Some(e) => option_endpoints(opts.drop_last()).push(e),
            None => option_endpoints(opts.drop_last()),
        }
    }
}

fn extract_endpoints(opts: &Vec<SdOption>) -> (r: Vec<SomeIpEndpoint>)
    ensures
        endpoint_views(r@) == option_endpoints(opts@),
{
    let mut out: Vec<SomeIpEndpoint> = Vec::new();
    let mut i: usize = 0;
    assert(endpoint_views(out@) =~= option_endpoints(opts@.take(0)));
    while i < opts.len()
        invariant
            i <= opts@.len(),
            endpoint_views(out@) == option_endpoints(opts@.take(i as int)),
        decreases opts.len() - i,
    {
        assert(opts@.take(i + 1).drop_last() =~= opts@.take(i as int));
        let ghost before = endpoint_views(out@);
        if let Some(e) = extract_endpoint(&opts[i]) {
            out.push(e);
            assert(endpoint_views(out@) =~= before.push(e@));
        }
        i += 1;
    }
    assert(opts@.take(i as int) =~= opts@);
    out
}

/// The end of a run of options: at most at the end of the list.
pub open spec fn run_end(opts: Seq<SdOption>, index: u8, count: u8) -> int {
    if index + count < opts.len() {
        index + count
    } else {
        opts.len() as int
    }
}

/// A run of options.
pub open spec fn run(opts: Seq<SdOption>, index: u8, count: u8) -> Seq<SdOption> {
    opts.subrange(index as int, run_end(opts, index, count))
}

fn push_run(texts: &mut Vec<String>, opts: &Vec<SdOption>, index: u8, count: u8)
    requires
        index <= opts@.len(),
    ensures
        text::texts(final(texts)@) == text::texts(old(texts)@) + option_texts(
            run(opts@, index, count),
        ),
{
    let wanted: usize = index as usize + count as usize;
    let end: usize = if wanted < opts.len() {
        wanted
    } else {
        opts.len()
    };
    let ghost all = run(opts@, index, count);
    let mut i: usize = index as usize;
    assert(text::texts(texts@) =~= text::texts(old(texts)@) + option_texts(all.take(0)));
    while i < end
        invariant
            index <= i <= end <= opts@.len(),
            all == opts@.subrange(index as int, end as int),
            text::texts(texts@) == text::texts(old(texts)@) + option_texts(all.take(i - index)),
        decreases end - i,
    {
        assert(all.take(i - index + 1).drop_last() =~= all.take(i - index));
        let ghost before = text::texts(texts@);
        if let Some(t) = format_option(&opts[i]) {
            texts.push(t);
            assert(text::texts(texts@) =~= before.push(t@));
        }
        assert(text::texts(texts@) =~= text::texts(old(texts)@) + option_texts(
            all.take(i - index + 1),
        ));
        i += 1;
    }
    assert(all.take(end - index) =~= all);
}

/// Whether the runs of options of an entry begin inside the list of options.
pub open spec fn runs_in_range(e: SdEntry, opts: Seq<SdOption>) -> bool {
    e.first_index <= opts.len() && e.second_index <= opts.len()
}

/// The endpoints of an entry as they are shown.
pub open spec fn entry_endpoints_text(e: SdEntry, opts: Seq<SdOption>) -> Seq<char> {
    let texts = option_texts(run(opts, e.first_index, e.first_count)) + option_texts(
        run(opts, e.second_index, e.second_count),
    );
    if texts.len() == 0 {
        Seq::empty()
    } else {
        " @ "@ + text::join_spec(texts, ", "@)
    }
}

fn entry_endpoints(e: &SdEntry, opts: &Vec<SdOption>) -> (r: String)
    requires
        runs_in_range(*e, opts@),
    ensures
        r@ == entry_endpoints_text(*e, opts@),
{
    let mut texts: Vec<String> = Vec::new();
    assert(text::texts(texts@) =~= Seq::empty());
    push_run(&mut texts, opts, e.first_index, e.first_count);
    assert(text::texts(texts@) =~= option_texts(run(opts@, e.first_index, e.first_count)));
    push_run(&mut texts, opts, e.second_index, e.second_count);
    assert(text::texts(texts@).len() == texts@.len());
    if texts.len() == 0 {
        String::new()
    } else {
        let mut s = String::from_str(" @ ");
        s.append(text::join(&texts, ", ").as_str());
        s
    }
}

/// An entry of service discovery as it is shown.
pub open spec fn entry_text(e: SdEntry, opts: Seq<SdOption>) -> Seq<char> {
    let name = match e.kind {
        SdEntryKind::Service { entry_type, .. } => if entry_type == 0 {
            "FindService"@
        } else {
            "OfferService"@
        },
        SdEntryKind::Eventgroup { entry_type, .. } => if entry_type == 6 {
            "Subscribe"@
        } else {
            "SubscribeAck"@
        },
    };
    let ids = name + "(0x"@ + text::hex_fixed(e.service_id as nat, 4) + ":0x"@ + text::hex_fixed(
        e.instance_id as nat,
        4,
    );
    let what = match e.kind {
        SdEntryKind::Service { major_version, minor_version, .. } => ids + " v"@ + text::dec(
            major_version as nat,
        ) + "."@ + text::dec(minor_version as nat),
        SdEntryKind::Eventgroup { eventgroup_id, .. } => ids + " eg=0x"@ + text::hex_fixed(
            eventgroup_id as nat,
            4,
        ),
    };
    what + " TTL="@ + text::dec(e.ttl as nat) + entry_endpoints_text(e, opts) + ")"@
}

fn format_entry(e: &SdEntry, opts: &Vec<SdOption>) -> (r: String)
    requires
        runs_in_range(*e, opts@),
    ensures
        r@ == entry_text(*e, opts@),
{
    let mut s = String::from_str(
        match e.kind {
            SdEntryKind::Service { entry_type, .. } => if entry_type == 0 {
                "FindService"
            } else {
                "OfferService"
            },
            SdEntryKind::Eventgroup { entry_type, .. } => if entry_type == 6 {
                "Subscribe"
            } else {
                "SubscribeAck"
            },
        },
    );
    s.append("(0x");
    text::push_hex_fixed(&mut s, e.service_id as u64, 4);
    s.append(":0x");
    text::push_hex_fixed(&mut s, e.instance_id as u64, 4);
    match e.kind {
        SdEntryKind::Service { major_version, minor_version, .. } => {
            s.append(" v");
            text::push_dec(&mut s, major_version as u64);
            s.append(".");
            text::push_dec(&mut s, minor_version as u64);
        },
        SdEntryKind::Eventgroup { eventgroup_id, .. } => {
            s.append(" eg=0x");
            text::push_hex_fixed(&mut s, eventgroup_id as u64, 4);
        },
    }
    s.append(" TTL=");
    text::push_dec(&mut s, e.ttl as u64);
    s.append(entry_endpoints(e, opts).as_str());
    s.append(")");
    s
}

/// The kind of a SOME/IP message in full.
pub open spec fn kind_name(kind: u8) -> Seq<char> {
    if kind == 0 {
        "REQUEST"@
    } else if kind == 1 {
        "REQUEST_NO_RETURN"@
    } else if kind == 2 {
        "NOTIFICATION"@
    } else if kind == 0x80 {
        "RESPONSE"@
    } else {
        "ERROR"@
    }
}

/// What a service discovery message says, by its kind, its entries and its options.
pub open spec fn sd_info(kind: u8, entries: Seq<SdEntry>, opts: Seq<SdOption>) -> SdInfoView {
    SdInfoView {
        message_type: kind_name(kind),
        entries: entries.map_values(|e: SdEntry| entry_text(e, opts)),
        endpoints: option_endpoints(opts),
    }
}

/// Describes a service discovery message.
pub fn describe_sd(kind: u8, entries: &Vec<SdEntry>, opts: &Vec<SdOption>) -> (r: SomeIpSdInfo)
    requires
        forall|i: int| 0 <= i < entries@.len() ==> runs_in_range(#[trigger] entries@[i], opts@),
    ensures
        r@ == sd_info(kind, entries@, opts@),
{
    let mut texts: Vec<String> = Vec::new();
    let mut i: usize = 0;
    let ghost all = entries@.map_values(|e: SdEntry| entry_text(e, opts@));
    while i < entries.len()
        invariant
            i <= entries@.len(),
            forall|k: int|
                0 <= k < entries@.len() ==> runs_in_range(#[trigger] entries@[k], opts@),
            all == entries@.map_values(|e: SdEntry| entry_text(e, opts@)),
            text::texts(texts@) == all.take(i as int),
        decreases entries.len() - i,
    {
        let t = format_entry(&entries[i], opts);
        let ghost before = text::texts(texts@);
        texts.push(t);
        assert(text::texts(texts@) =~= before.push(t@));
        assert(text::texts(texts@) =~= all.take(i + 1));
        i += 1;
    }
    assert(all.take(i as int) =~= all);
    let name = match kind {
        0 => "REQUEST",
        1 => "REQUEST_NO_RETURN",
        2 => "NOTIFICATION",
        0x80 => "RESPONSE",
        _ => "ERROR",
    };
    SomeIpSdInfo {
        message_type: String::from_str(name),
        entries: texts,
        endpoints: extract_endpoints(opts),
    }
}

/// The entries and options of a service discovery message, where the bytes are one.
pub open spec fn sd_parts(d: Seq<u8>) -> Option<(Seq<SdEntry>, Seq<SdOption>)> {
    if is_someip(d) && is_discovery(d) {
        match (sd_entries(someip_payload(d)), sd_options(someip_payload(d))) {
            (Some(entries), Some(opts)) => Some((entries, opts)),
            _ => None,
        }
    } else {
        None
    }
}

/// Whether every run of options in a service discovery message begins inside its list
/// of options. Bytes that are no such message pass.
pub open spec fn sd_in_range(d: Seq<u8>) -> bool {
    sd_parts(d) matches Some((entries, opts)) ==> forall|i: int|
        0 <= i < entries.len() ==> runs_in_range(#[trigger] entries[i], opts)
}

/// What bytes say where they are a service discovery message.
pub open spec fn decoded_sd(d: Seq<u8>) -> Option<SdInfoView> {
    match sd_parts(d) {
        Some((entries, opts)) => Some(sd_info(message_kind(d), entries, opts)),
        None => None,
    }
}

fn read_sd(payload: &[u8]) -> (r: Option<(u8, Vec<SdEntry>, Vec<SdOption>)>)
    ensures
        match r {
            Some((kind, entries, opts)) => sd_parts(payload@) == Some((entries@, opts@)) && kind
                == message_kind(payload@),
            None => sd_parts(payload@) is None,
        },
{
    let msg = read_someip(payload)?;
    if !msg.is_sd {
        return None;
    }
    let opts = read_sd_options(msg.payload.as_slice())?;
    let entries = read_sd_entries(msg.payload.as_slice())?;
    Some((msg.message_type, entries, opts))
}

/// Decodes a service discovery message.
pub fn decode_someip_sd(payload: &[u8]) -> (r: Option<SomeIpSdInfo>)
    requires
        sd_in_range(payload@),
    ensures
        opt_sd_info(r) == decoded_sd(payload@),
{
    match read_sd(payload) {
        Some((kind, entries, opts)) => Some(describe_sd(kind, &entries, &opts)),
        None => None,
    }
}

/// Decides whether every run of options in a service discovery message begins inside
/// its list of options.
pub fn check_sd_in_range(payload: &[u8]) -> (r: bool)
    ensures
        r == sd_in_range(payload@),
{
    match read_sd(payload) {
        Some((_, entries, opts)) => {
            let mut i: usize = 0;
            while i < entries.len()
                invariant
                    i <= entries@.len(),
                    sd_parts(payload@) == Some((entries@, opts@)),
                    forall|k: int| 0 <= k < i ==> runs_in_range(#[trigger] entries@[k], opts@),
                decreases entries.len() - i,
            {
                let e: SdEntry = entries[i];
                if e.first_index as usize > opts.len() || e.second_index as usize > opts.len() {
                    proof {
                        let parts = sd_parts(payload@)->0;
                        assert(!runs_in_range(parts.0[i as int], parts.1));
                    }
                    return false;
                }
                i += 1;
            }
            true
        },
        None => true,
    }
}

/// Decodes a service discovery message whose runs of options begin inside its list of
/// options; gives nothing at all for another one.
pub fn try_decode_someip_sd(payload: &[u8]) -> (r: Option<Option<SomeIpSdInfo>>)
    ensures
        match r {
            Some(info) => sd_in_range(payload@) && opt_sd_info(info) == decoded_sd(payload@),
            None => !sd_in_range(payload@),
        },
{
    if check_sd_in_range(payload) {
        Some(decode_someip_sd(payload))
    } else {
        None
    }
}

/// The kind of a SOME/IP message in short.
pub open spec fn short_kind_name(kind: u8) -> Seq<char> {
    if kind == 0 {
        "REQ"@
    } else if kind == 1 {
        "FIRE&FORGET"@
    } else if kind == 2 {
        "NOTIFY"@
    } else if kind == 0x80 {
        "RESP"@
    } else {
        "ERR"@
    }
}

/// The return code of a SOME/IP message as it is shown.
pub open spec fn return_code_text(code: u8) -> Seq<char> {
    if code == 0 {
        Seq::empty()
    } else if code == 1 {
        " RC=NOT_OK"@
    } else if code == 2 {
        " RC=UNKNOWN_SERVICE"@
    } else if code == 3 {
        " RC=UNKNOWN_METHOD"@
    } else {
        " RC=0x"@ + text::hex_fixed(code as nat, 2)
    }
}

/// The summary of a SOME/IP message.
pub open spec fn someip_text(d: Seq<u8>) -> Seq<char> {
    short_kind_name(message_kind(d)) + " svc=0x"@ + text::hex_fixed(
        net::be16(d[0], d[1]) as nat,
        4,
    ) + (if d[2] & 0x80 != 0 {
        " evt=0x"@
    } else {
        " method=0x"@
    }) + text::hex_fixed(net::be16(d[2], d[3]) as nat, 4) + " client=0x"@ + text::hex_fixed(
        net::be16(d[8], d[9]) as nat,
        4,
    ) + " sess=0x"@ + text::hex_fixed(net::be16(d[10], d[11]) as nat, 4) + (if is_segmented(d) {
        " TP"@
    } else {
        ""@
    }) + return_code_text(d[15]) + " Len="@ + text::dec(someip_payload(d).len())
}

/// What bytes say where they are a SOME/IP message outside service discovery.
pub open spec fn decoded_someip(d: Seq<u8>) -> Option<Seq<char>> {
    if is_someip(d) && !is_discovery(d) {
        Some(someip_text(d))
    } else {
        None
    }
}

/// Summarises a SOME/IP message outside service discovery.
pub fn decode_someip(payload: &[u8]) -> (r: Option<String>)
    ensures
        text::opt_text(r) == decoded_someip(payload@),
{
    let msg = read_someip(payload)?;
    if msg.is_sd {
        return None;
    }
    let mut s = String::from_str(
        match msg.message_type {
            0 => "REQ",
            1 => "FIRE&FORGET",
            2 => "NOTIFY",
            0x80 => "RESP",
            _ => "ERR",
        },
    );
    s.append(" svc=0x");
    text::push_hex_fixed(&mut s, msg.service_id as u64, 4);
    s.append(
        if msg.is_event {
            " evt=0x"
        } else {
            " method=0x"
        },
    );
    text::push_hex_fixed(&mut s, msg.event_or_method_id as u64, 4);
    let client_id: u32 = msg.request_id / 65536;
    let session_id: u32 = msg.request_id % 65536;
    s.append(" client=0x");
    text::push_hex_fixed(&mut s, client_id as u64, 4);
    s.append(" sess=0x");
    text::push_hex_fixed(&mut s, session_id as u64, 4);
    s.append(
        if msg.is_tp {
            " TP"
        } else {
            ""
        },
    );
    let ghost before = s@;
    match msg.return_code {
        0 => {
            assert(s@ =~= before + return_code_text(0));
        },
        1 => s.append(" RC=NOT_OK"),
        2 => s.append(" RC=UNKNOWN_SERVICE"),
        3 => s.append(" RC=UNKNOWN_METHOD"),
        c => {
            s.append(" RC=0x");
            text::push_hex_fixed(&mut s, c as u64, 2);
            assert(s@ =~= before + return_code_text(c));
        },
    }
    s.append(" Len=");
    text::push_dec(&mut s, msg.payload.len() as u64);
    Some(s)
}

proof fn lemma_kind_bits(b: u8)
    ensures
        b == 0 || b == 1 || b == 2 || b == 0x80 || b == 0x81 ==> b & 0x20 == 0 && b & 0xdf == b,
        b == 0x20 || b == 0x21 || b == 0x22 || b == 0xa0 || b == 0xa1 ==> b & 0x20 != 0 && b & 0xdf
            == b - 0x20,
        (b & 0x80 != 0) == (b >= 0x80),
{
    assert((b == 0 || b == 1 || b == 2 || b == 0x80 || b == 0x81 ==> b & 0x20 == 0 && b & 0xdf == b)
        && (b == 0x20 || b == 0x21 || b == 0x22 || b == 0xa0 || b == 0xa1 ==> b & 0x20 != 0 && b
        & 0xdf == b - 0x20) && (b & 0x80 != 0) == (b >= 0x80)) by (bit_vector);
}

/// A SOME/IP message outside service discovery is summed up by its kind, the numbers of its
/// service, its method or event, its client and its session, its return code where that is not
/// zero, and the length of what stands behind its header of 16 bytes. What stands behind the
/// announced length does not matter. Events are told from methods by the highest bit.
pub proof fn messages_are_summed_up(h: Seq<u8>, p: Seq<u8>, rest: Seq<u8>)
    requires
        h.len() == 16,
        h[4] * 0x100_0000 + h[5] * 0x1_0000 + h[6] * 0x100 + h[7] == 8 + p.len(),
        h[12] == 1,
        h[14] == 0 || h[14] == 1 || h[14] == 2 || h[14] == 0x80 || h[14] == 0x81,
        !(h[0] == 0xff && h[1] == 0xff && h[2] == 0x81 && h[3] == 0x00),
    ensures
        decoded_someip(h + p + rest) == Some(
            (if h[14] == 0 {
                "REQ"@
            } else if h[14] == 1 {
                "FIRE&FORGET"@
            } else if h[14] == 2 {
                "NOTIFY"@
            } else if h[14] == 0x80 {
                "RESP"@
            } else {
                "ERR"@
            }) + " svc=0x"@ + text::hex_fixed((h[0] * 0x100 + h[1]) as nat, 4) + (if h[2] >= 0x80 {
                " evt=0x"@
            } else {
                " method=0x"@
            }) + text::hex_fixed((h[2] * 0x100 + h[3]) as nat, 4) + " client=0x"@
                + text::hex_fixed((h[8] * 0x100 + h[9]) as nat, 4) + " sess=0x"@ + text::hex_fixed(
                (h[10] * 0x100 + h[11]) as nat,
                4,
            ) + (if h[15] == 0 {
                ""@
            } else if h[15] == 1 {
                " RC=NOT_OK"@
            } else if h[15] == 2 {
                " RC=UNKNOWN_SERVICE"@
            } else if h[15] == 3 {
                " RC=UNKNOWN_METHOD"@
            } else {
                " RC=0x"@ + text::hex_fixed(h[15] as nat, 2)
            }) + " Len="@ + text::dec(p.len()),
        ),
{
    let d = h + p + rest;
    lemma_kind_bits(h[14]);
    lemma_kind_bits(h[2]);
    reveal_strlit("");
    assert(is_someip(d));
    assert(!is_discovery(d));
    assert(someip_payload(d).len() == p.len());
    assert(decoded_someip(d)->0 =~= (if h[14] == 0 {
        "REQ"@
    } else if h[14] == 1 {
        "FIRE&FORGET"@
    } else if h[14] == 2 {
        "NOTIFY"@
    } else if h[14] == 0x80 {
        "RESP"@
    } else {
        "ERR"@
    }) + " svc=0x"@ + text::hex_fixed((h[0] * 0x100 + h[1]) as nat, 4) + (if h[2] >= 0x80 {
        " evt=0x"@
    } else {
        " method=0x"@
    }) + text::hex_fixed((h[2] * 0x100 + h[3]) as nat, 4) + " client=0x"@ + text::hex_fixed(
        (h[8] * 0x100 + h[9]) as nat,
        4,
    ) + " sess=0x"@ + text::hex_fixed((h[10] * 0x100 + h[11]) as nat, 4) + (if h[15] == 0 {
        ""@
    } else if h[15] == 1 {
        " RC=NOT_OK"@
    } else if h[15] == 2 {
        " RC=UNKNOWN_SERVICE"@
    } else if h[15] == 3 {
        " RC=UNKNOWN_METHOD"@
    } else {
        " RC=0x"@ + text::hex_fixed(h[15] as nat, 2)
    }) + " Len="@ + text::dec(p.len()));
}

/// A segment of a longer message is summed up as the whole one would be, with a mark behind the
/// session, and the four bytes behind its header that say which segment it is do not count.
pub proof fn segments_are_summed_up_as_messages(h: Seq<u8>, which: Seq<u8>, p: Seq<u8>)
    requires
        h.len() == 16,
        which.len() == 4,
        h[4] * 0x100_0000 + h[5] * 0x1_0000 + h[6] * 0x100 + h[7] == 12 + p.len(),
        h[12] == 1,
        h[14] == 0x20 || h[14] == 0x21 || h[14] == 0x22 || h[14] == 0xa0 || h[14] == 0xa1,
        !(h[0] == 0xff && h[1] == 0xff && h[2] == 0x81 && h[3] == 0x00),
        h[15] == 0,
    ensures
        decoded_someip(h + which + p) == Some(
            (if h[14] == 0x20 {
                "REQ"@
            } else if h[14] == 0x21 {
                "FIRE&FORGET"@
            } else if h[14] == 0x22 {
                "NOTIFY"@
            } else if h[14] == 0xa0 {
                "RESP"@
            } else {
                "ERR"@
            }) + " svc=0x"@ + text::hex_fixed((h[0] * 0x100 + h[1]) as nat, 4) + (if h[2] >= 0x80 {
                " evt=0x"@
            } else {
                " method=0x"@
            }) + text::hex_fixed((h[2] * 0x100 + h[3]) as nat, 4) + " client=0x"@
                + text::hex_fixed((h[8] * 0x100 + h[9]) as nat, 4) + " sess=0x"@ + text::hex_fixed(
                (h[10] * 0x100 + h[11]) as nat,
                4,
            ) + " TP"@ + " Len="@ + text::dec(p.len()),
        ),
{
    let d = h + which + p;
    lemma_kind_bits(h[14]);
    lemma_kind_bits(h[2]);
    reveal_strlit("");
    assert(is_someip(d));
    assert(someip_payload(d).len() == p.len());
    assert(decoded_someip(d)->0 =~= short_kind_name(message_kind(d)) + " svc=0x"@ + text::hex_fixed(
        (h[0] * 0x100 + h[1]) as nat,
        4,
    ) + (if h[2] >= 0x80 {
        " evt=0x"@
    } else {
        " method=0x"@
    }) + text::hex_fixed((h[2] * 0x100 + h[3]) as nat, 4) + " client=0x"@ + text::hex_fixed(
        (h[8] * 0x100 + h[9]) as nat,
        4,
    ) + " sess=0x"@ + text::hex_fixed((h[10] * 0x100 + h[11]) as nat, 4) + " TP"@ + " Len="@
        + text::dec(p.len()));
}

/// Bytes are no SOME/IP message, of service discovery or not, where they break off before the
/// announced length, where the length is too short for the header, where the version is not 1,
/// or where the kind is not known. And no message is both of service discovery and outside it.
pub proof fn other_bytes_are_no_messages(d: Seq<u8>)
    ensures
        d.len() < 16 ==> decoded_someip(d) is None && decoded_sd(d) is None,
        d.len() >= 16 && d.len() < 8 + d[4] * 0x100_0000 + d[5] * 0x1_0000 + d[6] * 0x100 + d[7]
            ==> decoded_someip(d) is None && decoded_sd(d) is None,
        d.len() >= 16 && d[4] * 0x100_0000 + d[5] * 0x1_0000 + d[6] * 0x100 + d[7] < 8
            ==> decoded_someip(d) is None && decoded_sd(d) is None,
        d.len() >= 16 && d[12] != 1 ==> decoded_someip(d) is None && decoded_sd(d) is None,
        d.len() >= 16 && d[0] == 0xff && d[1] == 0xff && d[2] == 0x81 && d[3] == 0x00
            ==> decoded_someip(d) is None,
        d.len() >= 16 && !(d[0] == 0xff && d[1] == 0xff && d[2] == 0x81 && d[3] == 0x00)
            ==> decoded_sd(d) is None,
{
}

/// Endpoints are found again by their protocol, address and port, with colons between them.
/// Those of different ports never have the same text.
pub proof fn endpoints_are_told_apart(
    protocol: Seq<char>,
    addr: Seq<char>,
    port: u16,
    other: u16,
)
    ensures
        endpoint_key(protocol, addr, port) == protocol + ":"@ + addr + ":"@ + text::dec(
            port as nat,
        ),
        endpoint_key(protocol, addr, port) == endpoint_key(protocol, addr, other) ==> port
            == other,
{
    if endpoint_key(protocol, addr, port) == endpoint_key(protocol, addr, other) {
        let head = protocol + ":"@ + addr + ":"@;
        let n = head.len() as int;
        assert((head + text::dec(port as nat)).skip(n) =~= text::dec(port as nat));
        assert((head + text::dec(other as nat)).skip(n) =~= text::dec(other as nat));
        text::decimal_texts_are_read_back(port as nat);
        text::decimal_texts_are_read_back(other as nat);
    }
}

/// Every option that holds an address announces an endpoint, for one host or for a group, with
/// the address in its text, the port, and the protocol by its number.
pub proof fn options_with_addresses_announce_endpoints(
    a: [u8; 4],
    b: [u8; 16],
    protocol: u8,
    port: u16,
)
    ensures
        ({
            let name = if protocol == 6 {
                "TCP"@
            } else if protocol == 17 {
                "UDP"@
            } else {
                "?"@
            };
            let short = net::ipv4_text(a@[0], a@[1], a@[2], a@[3]);
            let long = net::ipv6_text(b@);
            let four = EndpointView { addr: short, port, protocol: name };
            let six = EndpointView { addr: long, port, protocol: name };
            let tail = name + ":"@ + text::dec(port as nat);
            &&& option_endpoint(SdOption::Ipv4Endpoint(a, protocol, port)) == Some(four)
            &&& option_endpoint(SdOption::Ipv4Multicast(a, protocol, port)) == Some(four)
            &&& option_endpoint(SdOption::Ipv6Endpoint(b, protocol, port)) == Some(six)
            &&& option_endpoint(SdOption::Ipv6Multicast(b, protocol, port)) == Some(six)
            &&& option_endpoint(SdOption::Other) is None
            &&& option_text(SdOption::Ipv4Endpoint(a, protocol, port)) == Some(
                short + "/"@ + tail,
            )
            &&& option_text(SdOption::Ipv4Multicast(a, protocol, port)) == Some(
                "mcast:"@ + short + "/"@ + tail,
            )
            &&& option_text(SdOption::Ipv6Endpoint(b, protocol, port)) == Some(
                "["@ + long + "]/"@ + tail,
            )
            &&& option_text(SdOption::Ipv6Multicast(b, protocol, port)) == Some(
                "mcast:["@ + long + "]/"@ + tail,
            )
            &&& option_text(SdOption::Other) is None
        }),
{
    reveal_strlit("");
    let name = protocol_name(protocol);
    let short = net::ipv4_text(a@[0], a@[1], a@[2], a@[3]);
    let long = net::ipv6_text(b@);
    let tail = name + ":"@ + text::dec(port as nat);
    assert(option_text(SdOption::Ipv4Endpoint(a, protocol, port))->0 =~= short + "/"@ + tail);
    assert(option_text(SdOption::Ipv4Multicast(a, protocol, port))->0 =~= "mcast:"@ + short + "/"@
        + tail);
    assert(option_text(SdOption::Ipv6Endpoint(b, protocol, port))->0 =~= "["@ + long + "]/"@
        + tail);
    assert(option_text(SdOption::Ipv6Multicast(b, protocol, port))->0 =~= "mcast:["@ + long + "]/"@
        + tail);
}

/// A message of service discovery announces the endpoints of all its options, and no others.
pub proof fn all_options_are_announced(
    kind: u8,
    entries: Seq<SdEntry>,
    opts: Seq<SdOption>,
    e: EndpointView,
)
    ensures
        sd_info(kind, entries, opts).endpoints.contains(e) == exists|i: int|
            0 <= i < opts.len() && option_endpoint(#[trigger] opts[i]) == Some(e),
        (forall|i: int| 0 <= i < opts.len() ==> !(#[trigger] opts[i] is Other)) ==> sd_info(
            kind,
            entries,
            opts,
        ).endpoints.len() == opts.len() && forall|i: int|
            0 <= i < opts.len() ==> option_endpoint(#[trigger] opts[i]) == Some(
                sd_info(kind, entries, opts).endpoints[i],
            ),
{
    lemma_option_endpoints(opts, e);
}

proof fn lemma_option_endpoints(opts: Seq<SdOption>, e: EndpointView)
    ensures
        option_endpoints(opts).contains(e) == exists|i: int|
            0 <= i < opts.len() && option_endpoint(#[trigger] opts[i]) == Some(e),
        (forall|i: int| 0 <= i < opts.len() ==> !(#[trigger] opts[i] is Other))
            ==> option_endpoints(opts).len() == opts.len() && forall|i: int|
            0 <= i < opts.len() ==> option_endpoint(#[trigger] opts[i]) == Some(
                option_endpoints(opts)[i],
            ),
    decreases opts.len(),
{
    if opts.len() > 0 {
        let front = opts.drop_last();
        lemma_option_endpoints(front, e);
        let n = opts.len() - 1;
        let all = option_endpoints(opts);
        let before = option_endpoints(front);
        assert(forall|i: int| 0 <= i < n ==> front[i] == opts[i]);
        assert(opts[n] == opts.last());
        if all.contains(e) {
            let k = choose|k: int| 0 <= k < all.len() && all[k] == e;
            if k < before.len() {
                assert(before[k] == e);
                let i = choose|i: int|
                    0 <= i < front.len() && option_endpoint(#[trigger] front[i]) == Some(e);
                assert(option_endpoint(opts[i]) == Some(e));
            } else {
                assert(option_endpoint(opts[n]) == Some(e));
            }
        }
        if exists|i: int| 0 <= i < opts.len() && option_endpoint(#[trigger] opts[i]) == Some(e) {
            let i = choose|i: int|
                0 <= i < opts.len() && option_endpoint(#[trigger] opts[i]) == Some(e);
            if i < n {
                assert(option_endpoint(front[i]) == Some(e));
                let k = choose|k: int| 0 <= k < before.len() && before[k] == e;
                assert(all[k] == e);
            } else {
                assert(all[all.len() - 1] == e);
            }
        }
        if forall|i: int| 0 <= i < opts.len() ==> !(#[trigger] opts[i] is Other) {
            assert(forall|i: int| 0 <= i < front.len() ==> !(#[trigger] front[i] is Other));
            assert(!(opts[n] is Other));
            assert forall|i: int| 0 <= i < opts.len() implies option_endpoint(#[trigger] opts[i])
                == Some(all[i]) by {
                if i < n {
                    assert(front[i] == opts[i]);
                    assert(option_endpoint(front[i]) == Some(before[i]));
                }
            }
        }
    }
}

proof fn lemma_option_texts(opts: Seq<SdOption>)
    requires
        forall|i: int| 0 <= i < opts.len() ==> !(#[trigger] opts[i] is Other),
    ensures
        option_texts(opts).len() == opts.len(),
        forall|i: int|
            0 <= i < opts.len() ==> option_text(#[trigger] opts[i]) == Some(option_texts(opts)[i]),
    decreases opts.len(),
{
    if opts.len() > 0 {
        let front = opts.drop_last();
        let n = opts.len() - 1;
        assert(forall|i: int| 0 <= i < n ==> front[i] == opts[i]);
        assert forall|i: int| 0 <= i < front.len() implies !(#[trigger] front[i] is Other) by {
            assert(front[i] == opts[i]);
        }
        lemma_option_texts(front);
        assert(opts[n] == opts.last() && !(opts[n] is Other));
        assert forall|i: int| 0 <= i < opts.len() implies option_text(#[trigger] opts[i]) == Some(
            option_texts(opts)[i],
        ) by {
            if i < n {
                assert(option_text(front[i]) == Some(option_texts(front)[i]));
            }
        }
    }
}

/// An entry shows the options of its two runs, those of the first run before those of the
/// second: as many as it says, from the index that it says on. Without any it shows none.
pub proof fn entries_show_their_runs_of_options(e: SdEntry, opts: Seq<SdOption>, i: int)
    requires
        e.first_index + e.first_count <= opts.len(),
        e.second_index + e.second_count <= opts.len(),
        forall|k: int| 0 <= k < opts.len() ==> !(#[trigger] opts[k] is Other),
        0 <= i < e.first_count + e.second_count,
    ensures
        exists|texts: Seq<Seq<char>>|
            {
                &&& texts.len() == e.first_count + e.second_count
                &&& entry_endpoints_text(e, opts) == " @ "@ + #[trigger] text::join_spec(
                    texts,
                    ", "@,
                )
                &&& option_text(
                    opts[if i < e.first_count {
                        e.first_index + i
                    } else {
                        e.second_index + i - e.first_count
                    }],
                ) == Some(texts[i])
            },
{
    let a = run(opts, e.first_index, e.first_count);
    let b = run(opts, e.second_index, e.second_count);
    assert forall|k: int| 0 <= k < a.len() implies !(#[trigger] a[k] is Other) by {
        assert(a[k] == opts[e.first_index + k]);
    }
    assert forall|k: int| 0 <= k < b.len() implies !(#[trigger] b[k] is Other) by {
        assert(b[k] == opts[e.second_index + k]);
    }
    lemma_option_texts(a);
    lemma_option_texts(b);
    let texts = option_texts(a) + option_texts(b);
    if i < e.first_count {
        assert(option_text(a[i]) == Some(option_texts(a)[i]));
        assert(a[i] == opts[e.first_index + i]);
    } else {
        let k = i - e.first_count;
        assert(option_text(b[k]) == Some(option_texts(b)[k]));
        assert(b[k] == opts[e.second_index + k]);
    }
    assert(entry_endpoints_text(e, opts) == " @ "@ + text::join_spec(texts, ", "@));
}

/// An entry of service discovery is shown by what it does, the numbers of its service and
/// instance, the version or the event group, how long it holds, and its options.
pub proof fn entries_are_shown_by_their_numbers(e: SdEntry, opts: Seq<SdOption>)
    ensures
        ({
            let ids = "(0x"@ + text::hex_fixed(e.service_id as nat, 4) + ":0x"@ + text::hex_fixed(
                e.instance_id as nat,
                4,
            );
            let tail = " TTL="@ + text::dec(e.ttl as nat) + entry_endpoints_text(e, opts) + ")"@;
            match e.kind {
                SdEntryKind::Service { entry_type, major_version, minor_version } => {
                    entry_text(e, opts) == (if entry_type == 0 {
                        "FindService"@
                    } else {
                        "OfferService"@
                    }) + ids + " v"@ + text::dec(major_version as nat) + "."@ + text::dec(
                        minor_version as nat,
                    ) + tail
                },
                SdEntryKind::Eventgroup { entry_type, eventgroup_id } => {
                    entry_text(e, opts) == (if entry_type == 6 {
                        "Subscribe"@
                    } else {
                        "SubscribeAck"@
                    }) + ids + " eg=0x"@ + text::hex_fixed(eventgroup_id as nat, 4) + tail
                },
            }
        }),
        e.first_count == 0 && e.second_count == 0 ==> entry_endpoints_text(e, opts).len() == 0 || e.first_index
            > opts.len() || e.second_index > opts.len(),
{
    let ids = "(0x"@ + text::hex_fixed(e.service_id as nat, 4) + ":0x"@ + text::hex_fixed(
        e.instance_id as nat,
        4,
    );
    let tail = " TTL="@ + text::dec(e.ttl as nat) + entry_endpoints_text(e, opts) + ")"@;
    match e.kind {
        SdEntryKind::Service { entry_type, major_version, minor_version } => {
            assert(entry_text(e, opts) =~= (if entry_type == 0 {
                "FindService"@
            } else {
                "OfferService"@
            }) + ids + " v"@ + text::dec(major_version as nat) + "."@ + text::dec(
                minor_version as nat,
            ) + tail);
        },
        SdEntryKind::Eventgroup { entry_type, eventgroup_id } => {
            assert(entry_text(e, opts) =~= (if entry_type == 6 {
                "Subscribe"@
            } else {
                "SubscribeAck"@
            }) + ids + " eg=0x"@ + text::hex_fixed(eventgroup_id as nat, 4) + tail);
        },
    }
}

/// A message of service discovery shows each of its entries, in order, and its kind in full.
pub proof fn all_entries_are_shown(
    kind: u8,
    entries: Seq<SdEntry>,
    opts: Seq<SdOption>,
    i: int,
)
    requires
        0 <= i < entries.len(),
    ensures
        sd_info(kind, entries, opts).entries.len() == entries.len(),
        sd_info(kind, entries, opts).entries[i] == entry_text(entries[i], opts),
        sd_info(kind, entries, opts).message_type == if kind == 0 {
            "REQUEST"@
        } else if kind == 1 {
            "REQUEST_NO_RETURN"@
        } else if kind == 2 {
            "NOTIFICATION"@
        } else if kind == 0x80 {
            "RESPONSE"@
        } else {
            "ERROR"@
        },
{
}

/// A message of service discovery is decoded from what stands behind its header of 16 bytes,
/// where that holds entries and options.
pub proof fn service_discovery_is_decoded(h: Seq<u8>, p: Seq<u8>, rest: Seq<u8>)
    requires
        h.len() == 16,
        h[0] == 0xff,
        h[1] == 0xff,
        h[2] == 0x81,
        h[3] == 0x00,
        h[4] * 0x100_0000 + h[5] * 0x1_0000 + h[6] * 0x100 + h[7] == 8 + p.len(),
        h[12] == 1,
        h[14] == 0 || h[14] == 1 || h[14] == 2 || h[14] == 0x80 || h[14] == 0x81,
    ensures
        sd_entries(p) is Some && sd_options(p) is Some ==> decoded_sd(h + p + rest) == Some(
            sd_info(h[14], sd_entries(p)->0, sd_options(p)->0),
        ),
        sd_entries(p) is None || sd_options(p) is None ==> decoded_sd(h + p + rest) is None,
{
    let d = h + p + rest;
    lemma_kind_bits(h[14]);
    assert(is_someip(d));
    assert(is_discovery(d));
    assert(someip_payload(d) =~= p);
}

} // verus!
