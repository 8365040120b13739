//! The lines of a packet capture, and what is kept for one.

use super::packet;
use super::packet::PacketInfo;
use super::someip;
use super::someip::{SomeIpEndpoint, SomeIpSdInfo};
use crate::filetype;
use crate::filetype::{CalibrationResult, LineType, SimpleFileState};
use crate::string_set::StringSet;
use crate::text;
use crate::time;
use crate::time::{TimeSpan, Timestamp};
use vstd::prelude::*;

verus! {

/// The port of SOME/IP service discovery.
pub const SOMEIP_SD_PORT: u16 = 30490;

/// Settings for packet captures.
#[derive(Debug, Clone, Copy, PartialEq, Eq, Structural)]
pub struct PcapConfig {
    /// Whether the Ethernet addresses are shown in each line.
    pub show_mac_addresses: bool,
}

impl Default for PcapConfig {
    fn default() -> (r: Self)
        ensures
            !r.show_mac_addresses,
    {
        PcapConfig { show_mac_addresses: false }
    }
}

/// What is kept for one packet capture: its time offset and what is known of SOME/IP.
#[derive(Debug)]
pub struct PcapFileState {
    inner: SimpleFileState,
    /// The multicast destinations, as address and port, whose packets are decoded as
    /// service discovery.
    someip_sd_decodings: StringSet,
    /// The endpoints that service discovery announced, as protocol, address and port.
    someip_known_endpoints: StringSet,
}

/// A set of destinations with one more, or without it where it was in it.
pub open spec fn switched(keys: Set<Seq<char>>, key: Seq<char>) -> Set<Seq<char>> {
    if keys.contains(key) {
        keys.remove(key)
    } else {
        keys.insert(key)
    }
}

/// To switch the decoding for a destination twice changes nothing, and to switch it once
/// changes it for no other.
pub proof fn decoding_switches_back(keys: Set<Seq<char>>, key: Seq<char>, other: Seq<char>)
    ensures
        switched(switched(keys, key), key) == keys,
        other != key ==> switched(keys, key).contains(other) == keys.contains(other),
{
    assert(switched(switched(keys, key), key) =~= keys);
}

impl PcapFileState {
    /// The time offset and the open calibration window.
    pub closed spec fn simple(&self) -> SimpleFileState {
        self.inner
    }

    /// The multicast destinations whose packets are decoded.
    pub closed spec fn decodings(&self) -> Set<Seq<char>> {
        self.someip_sd_decodings@
    }

    /// The known endpoints.
    pub closed spec fn endpoints(&self) -> Set<Seq<char>> {
        self.someip_known_endpoints@
    }

    /// The state of a capture with saved settings.
    pub fn restore(
        time_offset_ms: i64,
        someip_sd_decodings: Vec<String>,
        someip_known_endpoints: Vec<String>,
    ) -> (r: Self)
        ensures
            r.simple().time_offset_ms == time_offset_ms,
            r.simple().calibration is None,
            r.decodings() == text::texts(someip_sd_decodings@).to_set(),
            r.endpoints() == text::texts(someip_known_endpoints@).to_set(),
    {
        PcapFileState {
            inner: SimpleFileState { time_offset_ms, calibration: None },
            someip_sd_decodings: StringSet::from_vec(someip_sd_decodings),
            someip_known_endpoints: StringSet::from_vec(someip_known_endpoints),
        }
    }

    /// The multicast destinations whose packets are decoded, each once.
    pub fn decoding_list(&self) -> (r: Vec<String>)
        ensures
            text::texts(r@).to_set() == self.decodings(),
            text::texts(r@).no_duplicates(),
    {
        self.someip_sd_decodings.to_vec()
    }

    /// The known endpoints, each once.
    pub fn endpoint_list(&self) -> (r: Vec<String>)
        ensures
            text::texts(r@).to_set() == self.endpoints(),
            text::texts(r@).no_duplicates(),
    {
        self.someip_known_endpoints.to_vec()
    }

    /// The time offset in milliseconds.
    pub fn time_offset_ms(&self) -> (r: i64)
        ensures
            r == self.simple().time_offset_ms,
    {
        self.inner.time_offset_ms()
    }

    /// Sets the time offset in milliseconds.
    pub fn set_time_offset_ms(&mut self, v: i64)
        ensures
            final(self).simple() == (SimpleFileState { time_offset_ms: v, ..old(self).simple() }),
            final(self).decodings() == old(self).decodings(),
            final(self).endpoints() == old(self).endpoints(),
    {
        self.inner.set_time_offset_ms(v);
    }

    /// The open calibration window, with the time of its line without any offset.
    pub fn calibration(&self) -> (r: &SimpleFileState)
        ensures
            *r == self.simple(),
    {
        &self.inner
    }

    /// Leaves the calibration window with a result, and says whether any time changed.
    pub fn finish_calibration(&mut self, result: CalibrationResult) -> (r: bool)
        requires
            filetype::can_calibrate(old(self).simple(), result),
        ensures
            final(self).simple() == filetype::calibrated(old(self).simple(), result),
            r == (old(self).simple().calibration is Some && result is Confirmed),
            final(self).decodings() == old(self).decodings(),
            final(self).endpoints() == old(self).endpoints(),
    {
        self.inner.finish_calibration(result)
    }

    /// Decides whether packets to a multicast destination are decoded.
    pub fn is_someip_sd_active(&self, key: &str) -> (r: bool)
        ensures
            r == self.decodings().contains(key@),
    {
        self.someip_sd_decodings.contains(key)
    }

    /// Switches the decoding of packets to a multicast destination, and says whether it
    /// is now on.
    pub fn toggle_someip_sd(&mut self, key: String) -> (r: bool)
        ensures
            r == !old(self).decodings().contains(key@),
            final(self).decodings() == switched(old(self).decodings(), key@),
            final(self).endpoints() == old(self).endpoints(),
            final(self).simple() == old(self).simple(),
    {
        if self.someip_sd_decodings.contains(key.as_str()) {
            self.someip_sd_decodings.remove(key.as_str());
            false
        } else {
            self.someip_sd_decodings.insert(key);
            true
        }
    }

    /// Remembers endpoints that service discovery announced.
    pub fn add_someip_endpoints(&mut self, endpoints: &Vec<SomeIpEndpoint>)
        ensures
            final(self).endpoints() == old(self).endpoints().union(
                endpoint_keys(someip::endpoint_views(endpoints@)),
            ),
            final(self).decodings() == old(self).decodings(),
            final(self).simple() == old(self).simple(),
    {
        let ghost views = someip::endpoint_views(endpoints@);
        let mut i: usize = 0;
        assert(self.endpoints() =~= old(self).endpoints().union(endpoint_keys(views.take(0))));
        while i < endpoints.len()
            invariant
                i <= endpoints@.len(),
                views == someip::endpoint_views(endpoints@),
                self.endpoints() == old(self).endpoints().union(
                    endpoint_keys(views.take(i as int)),
                ),
                self.decodings() == old(self).decodings(),
                self.simple() == old(self).simple(),
            decreases endpoints.len() - i,
        {
            let key = endpoints[i].key();
            proof {
                let e = views[i as int];
                let k = key@;
                assert(k == someip::endpoint_key(e.protocol, e.addr, e.port));
                let a = endpoint_keys(views.take(i as int));
                let b = endpoint_keys(views.take(i + 1));
                assert forall|x: Seq<char>| b.contains(x) == a.insert(k).contains(x) by {
                    if a.contains(x) {
                        let j = choose|j: int|
                            0 <= j < i && key_of(#[trigger] views.take(i as int)[j]) == x;
                        assert(key_of(views.take(i + 1)[j]) == x);
                    }
                    if x == k {
                        assert(key_of(views.take(i + 1)[i as int]) == x);
                    }
                    if b.contains(x) {
                        let j = choose|j: int|
                            0 <= j < i + 1 && key_of(#[trigger] views.take(i + 1)[j]) == x;
                        if j < i {
                            assert(key_of(views.take(i as int)[j]) == x);
                        }
                    }
                }
                assert(b =~= a.insert(k));
                assert(old(self).endpoints().union(b) =~= old(self).endpoints().union(a).insert(k));
            }
            self.someip_known_endpoints.insert(key);
            i += 1;
        }
        assert(views.take(i as int) =~= views);
    }

    /// Decides whether an endpoint is known.
    pub fn is_known_someip_endpoint(&self, proto: &str, addr: &str, port: u16) -> (r: bool)
        ensures
            r == self.endpoints().contains(someip::endpoint_key(proto@, addr@, port)),
    {
        let key = someip::format_endpoint_key(proto, addr, port);
        self.someip_known_endpoints.contains(key.as_str())
    }

    /// A copy without an open calibration window.
    pub fn duplicate(&self) -> (r: Self)
        ensures
            r.simple() == self.simple(),
            r.decodings() == self.decodings(),
            r.endpoints() == self.endpoints(),
    {
        PcapFileState {
            inner: self.inner,
            someip_sd_decodings: StringSet::from_vec(self.someip_sd_decodings.to_vec()),
            someip_known_endpoints: StringSet::from_vec(self.someip_known_endpoints.to_vec()),
        }
    }
}

/// The text by which an announced endpoint is found again.
pub open spec fn key_of(e: someip::EndpointView) -> Seq<char> {
    someip::endpoint_key(e.protocol, e.addr, e.port)
}

/// The texts by which announced endpoints are found again.
pub open spec fn endpoint_keys(v: Seq<someip::EndpointView>) -> Set<Seq<char>> {
    Set::new(|k: Seq<char>| exists|j: int| 0 <= j < v.len() && key_of(#[trigger] v[j]) == k)
}

impl Default for PcapFileState {
    fn default() -> (r: Self)
        ensures
            r.simple().time_offset_ms == 0,
            r.simple().calibration is None,
            r.decodings() == Set::<Seq<char>>::empty(),
            r.endpoints() == Set::<Seq<char>>::empty(),
    {
        PcapFileState {
            inner: SimpleFileState::default(),
            someip_sd_decodings: StringSet::new(),
            someip_known_endpoints: StringSet::new(),
        }
    }
}

/// A line of a packet capture: one packet.
#[derive(Debug)]
pub struct PcapLogLine {
    pub packet_info: PacketInfo,
    /// The number of the packet in its file, from 1.
    pub line_number: usize,
}

impl Clone for PcapLogLine {
    fn clone(&self) -> (r: Self)
        ensures
            r.packet_info@ == self.packet_info@,
            r.line_number == self.line_number,
    {
        PcapLogLine { packet_info: self.packet_info.clone(), line_number: self.line_number }
    }
}

/// Whether a packet comes from or goes to the port of service discovery.
pub open spec fn on_sd_port(p: packet::PacketView) -> bool {
    p.protocol == "UDP"@ && (p.src_port == Some(SOMEIP_SD_PORT) || p.dst_port == Some(
        SOMEIP_SD_PORT,
    ))
}

/// Whether a packet goes to a multicast destination whose packets are decoded.
pub open spec fn is_switched_on(p: packet::PacketView, decodings: Set<Seq<char>>) -> bool {
    packet::multicast_key_of(p) matches Some(key) && decodings.contains(key)
}

/// What service discovery says in a packet, where it is looked at.
pub open spec fn shown_sd(p: packet::PacketView, decodings: Set<Seq<char>>) -> Option<
    someip::SdInfoView,
> {
    match p.transport_payload {
        Some(d) => if on_sd_port(p) || is_switched_on(p, decodings) {
            someip::decoded_sd(d)
        } else {
            None
        },
        None => None,
    }
}

/// Whether the source or the destination of a packet is a known endpoint.
pub open spec fn has_known_endpoint(p: packet::PacketView, endpoints: Set<Seq<char>>) -> bool {
    ||| p.src_port matches Some(port) && endpoints.contains(
        someip::endpoint_key(p.protocol, p.src_addr, port),
    )
    ||| p.dst_port matches Some(port) && endpoints.contains(
        someip::endpoint_key(p.protocol, p.dst_addr, port),
    )
}

/// What SOME/IP says in a packet of a known endpoint.
pub open spec fn shown_someip(p: packet::PacketView, endpoints: Set<Seq<char>>) -> Option<
    Seq<char>,
> {
    match p.transport_payload {
        Some(d) => if has_known_endpoint(p, endpoints) {
            someip::decoded_someip(d)
        } else {
            None
        },
        None => None,
    }
}

/// A text behind the Ethernet addresses of a packet, where they are wanted and known.
pub open spec fn with_mac_addresses(p: packet::PacketView, wanted: bool, base: Seq<char>) -> Seq<
    char,
> {
    match (p.src_mac, p.dst_mac) {
        (Some(src), Some(dst)) => if wanted {
            src + " \u{2192} "@ + dst + " | "@ + base
        } else {
            base
        },
        _ => base,
    }
}

/// A text followed by what service discovery says.
pub open spec fn with_sd(base: Seq<char>, info: someip::SdInfoView) -> Seq<char> {
    let head = base + " [SOME/IP-SD "@ + info.message_type;
    if info.entries.len() == 0 {
        head + "]"@
    } else {
        head + " "@ + text::join_spec(info.entries, ", "@) + "]"@
    }
}

/// What a line of a capture shows behind its offset.
pub open spec fn shown_packet(
    p: packet::PacketView,
    config: PcapConfig,
    decodings: Set<Seq<char>>,
    endpoints: Set<Seq<char>>,
    base: Seq<char>,
) -> Seq<char> {
    let b = with_mac_addresses(p, config.show_mac_addresses, base);
    match shown_sd(p, decodings) {
        Some(info) => with_sd(b, info),
        None => match shown_someip(p, endpoints) {
            Some(t) => b + " [SOME/IP "@ + t + "]"@,
            None => b,
        },
    }
}

/// The endpoints that are known once a packet was shown.
pub open spec fn endpoints_after(
    p: packet::PacketView,
    decodings: Set<Seq<char>>,
    endpoints: Set<Seq<char>>,
) -> Set<Seq<char>> {
    match shown_sd(p, decodings) {
        Some(info) => endpoints.union(endpoint_keys(info.endpoints)),
        None => endpoints,
    }
}

/// Whether service discovery in a packet can be described, where it is looked at.
pub open spec fn sd_describable(p: packet::PacketView, decodings: Set<Seq<char>>) -> bool {
    p.transport_payload matches Some(d) ==> (on_sd_port(p) || is_switched_on(p, decodings))
        ==> someip::sd_in_range(d)
}

fn append_sd(base: &mut String, info: &SomeIpSdInfo)
    ensures
        final(base)@ == with_sd(old(base)@, info@),
{
    base.append(" [SOME/IP-SD ");
    base.append(info.message_type.as_str());
    assert(text::texts(info.entries@).len() == info.entries@.len());
    if info.entries.len() > 0 {
        base.append(" ");
        base.append(text::join(&info.entries, ", ").as_str());
    }
    base.append("]");
}

impl PcapLogLine {
    pub fn new(packet_info: PacketInfo, line_number: usize) -> (r: Self)
        ensures
            r.packet_info == packet_info,
            r.line_number == line_number,
    {
        PcapLogLine { packet_info, line_number }
    }

    /// The state of a capture of which only a time offset is saved.
    pub fn file_state_from_v2(time_offset_ms: i64) -> (r: PcapFileState)
        ensures
            r.simple().time_offset_ms == time_offset_ms,
            r.simple().calibration is None,
            r.decodings() == Set::<Seq<char>>::empty(),
            r.endpoints() == Set::<Seq<char>>::empty(),
    {
        let mut s = PcapFileState::default();
        s.set_time_offset_ms(time_offset_ms);
        s
    }

    fn is_on_sd_port(&self) -> (r: bool)
        ensures
            r == on_sd_port(self.packet_info@),
    {
        let from: bool = match self.packet_info.src_port {
            Some(p) => p == SOMEIP_SD_PORT,
            None => false,
        };
        let to: bool = match self.packet_info.dst_port {
            Some(p) => p == SOMEIP_SD_PORT,
            None => false,
        };
        self.packet_info.protocol == String::from_str("UDP") && (from || to)
    }

    fn is_decoded(&self, state: &PcapFileState) -> (r: bool)
        ensures
            r == (on_sd_port(self.packet_info@) || is_switched_on(
                self.packet_info@,
                state.decodings(),
            )),
    {
        if self.is_on_sd_port() {
            return true;
        }
        match self.packet_info.multicast_key() {
            Some(key) => state.is_someip_sd_active(key.as_str()),
            None => false,
        }
    }

    fn is_known(&self, state: &PcapFileState) -> (r: bool)
        ensures
            r == has_known_endpoint(self.packet_info@, state.endpoints()),
    {
        let pi = &self.packet_info;
        let known_src: bool = match pi.src_port {
            Some(p) => state.is_known_someip_endpoint(
                pi.protocol.as_str(),
                pi.src_addr.as_str(),
                p,
            ),
            None => false,
        };
        let known_dst: bool = match pi.dst_port {
            Some(p) => state.is_known_someip_endpoint(
                pi.protocol.as_str(),
                pi.dst_addr.as_str(),
                p,
            ),
            None => false,
        };
        known_src || known_dst
    }

    /// Writes the line behind its offset: the Ethernet addresses where they are wanted,
    /// then what is decoded from the payload. Endpoints that are announced on the way
    /// become known.
    pub fn show_packet(&self, config: &PcapConfig, state: &mut PcapFileState, base: String) -> (r:
        String)
        requires
            sd_describable(self.packet_info@, old(state).decodings()),
        ensures
            r@ == shown_packet(
                self.packet_info@,
                *config,
                old(state).decodings(),
                old(state).endpoints(),
                base@,
            ),
            final(state).simple() == old(state).simple(),
            final(state).decodings() == old(state).decodings(),
            final(state).endpoints() == endpoints_after(
                self.packet_info@,
                old(state).decodings(),
                old(state).endpoints(),
            ),
    {
        let pi = &self.packet_info;
        let mut msg = match (&pi.src_mac, &pi.dst_mac) {
            (Some(smac), Some(dmac)) => {
                if config.show_mac_addresses {
                    let mut s = smac.clone();
                    s.append(" \u{2192} ");
                    s.append(dmac.as_str());
                    s.append(" | ");
                    s.append(base.as_str());
                    s
                } else {
                    base
                }
            },
            _ => base,
        };
        if let Some(payload) = &pi.transport_payload {
            if self.is_decoded(state) {
                if let Some(info) = someip::decode_someip_sd(payload.as_slice()) {
                    state.add_someip_endpoints(&info.endpoints);
                    append_sd(&mut msg, &info);
                    return msg;
                }
            }
            if self.is_known(state) {
                if let Some(t) = someip::decode_someip(payload.as_slice()) {
                    msg.append(" [SOME/IP ");
                    msg.append(t.as_str());
                    msg.append("]");
                }
            }
        }
        msg
    }

    /// Shows the line, or gives nothing where its offset cannot be written or its
    /// service discovery cannot be described; in that case nothing changes.
    pub fn try_display_message<D: Fn(TimeSpan) -> String>(
        &self,
        config: &PcapConfig,
        state: &mut PcapFileState,
        diff: &D,
    ) -> (r: Option<String>)
        requires
            forall|d: TimeSpan| #[trigger] call_requires(*diff, (d,)),
        ensures
            match r {
                Some(shown) => self.display_defined(*config, *old(state)) && self.displays(
                    *config,
                    *old(state),
                    filetype::span_texts(*diff),
                    shown@,
                ) && self.state_after_display(*config, *old(state), *final(state)),
                None => !self.display_defined(*config, *old(state)) && *final(state) == *old(state),
            },
    {
        if self.can_display(config, state) {
            Some(self.display_message(config, state, diff))
        } else {
            None
        }
    }

    /// Opens the calibration window for the line.
    pub fn start_calibration(&self, state: &mut PcapFileState)
        requires
            filetype::offset_fits(self.packet_info.timestamp, old(state).simple().time_offset_ms),
        ensures
            final(state).decodings() == old(state).decodings(),
            final(state).endpoints() == old(state).endpoints(),
            final(state).simple().time_offset_ms == old(state).simple().time_offset_ms,
            final(state).simple().calibration == Some(
                (
                    self.packet_info.timestamp,
                    filetype::CalibrationWindow {
                        target_time: self.packet_info.timestamp.plus_ms(
                            old(state).simple().time_offset_ms as int,
                        ),
                        asks_for_all_apps: false,
                        current_time: Some(
                            self.packet_info.timestamp.plus_ms(
                                old(state).simple().time_offset_ms as int,
                            ),
                        ),
                        raw_time: self.packet_info.timestamp,
                    },
                ),
            ),
    {
        state.inner.start_calibration(self.packet_info.timestamp);
    }

    /// What the menu of a multicast packet offers: its destination, and the text of the
    /// entry that switches the decoding of its packets.
    pub fn sd_menu_entry(&self, state: &PcapFileState) -> (r: Option<(String, String)>)
        ensures
            match r {
                Some((key, label)) => packet::multicast_key_of(self.packet_info@) == Some(key@)
                    && label@ == (if state.decodings().contains(key@) {
                    "\u{1F513} Disable SOME/IP SD decoding for "@
                } else {
                    "\u{1F512} Enable SOME/IP SD decoding for "@
                }) + key@,
                None => packet::multicast_key_of(self.packet_info@) is None,
            },
    {
        match self.packet_info.multicast_key() {
            Some(key) => {
                let mut label = String::from_str(
                    if state.is_someip_sd_active(key.as_str()) {
                        "\u{1F513} Disable SOME/IP SD decoding for "
                    } else {
                        "\u{1F512} Enable SOME/IP SD decoding for "
                    },
                );
                label.append(key.as_str());
                Some((key, label))
            },
            None => None,
        }
    }
}

impl LineType for PcapLogLine {
    type Config = PcapConfig;

    type FileState = PcapFileState;

    open spec fn time(&self, config: PcapConfig, state: PcapFileState) -> Timestamp {
        self.packet_info.timestamp.plus_ms(state.simple().time_offset_ms as int)
    }

    open spec fn time_defined(&self, config: PcapConfig, state: PcapFileState) -> bool {
        filetype::offset_fits(self.packet_info.timestamp, state.simple().time_offset_ms)
    }

    open spec fn message_text(&self) -> Seq<char> {
        packet::message_text(self.packet_info@)
    }

    open spec fn display_defined(&self, config: PcapConfig, state: PcapFileState) -> bool {
        &&& state.simple().time_offset_ms > i64::MIN
        &&& sd_describable(self.packet_info@, state.decodings())
    }

    open spec fn displays(
        &self,
        config: PcapConfig,
        state: PcapFileState,
        diff: filetype::SpanTexts,
        shown: Seq<char>,
    ) -> bool {
        exists|base: Seq<char>|
            #[trigger] filetype::with_offset(
                state.simple().time_offset_ms,
                packet::message_text(self.packet_info@),
                diff,
                base,
            ) && shown == shown_packet(
                self.packet_info@,
                config,
                state.decodings(),
                state.endpoints(),
                base,
            )
    }

    open spec fn state_after_display(
        &self,
        config: PcapConfig,
        state: PcapFileState,
        after: PcapFileState,
    ) -> bool {
        &&& after.simple() == state.simple()
        &&& after.decodings() == state.decodings()
        &&& after.endpoints() == endpoints_after(
            self.packet_info@,
            state.decodings(),
            state.endpoints(),
        )
    }

    open spec fn is_raw(&self, raw: Seq<char>) -> bool {
        exists|clock: Seq<char>|
            time::is_clock_of(self.packet_info.timestamp, clock) && raw
                == #[trigger] packet::raw_text(self.packet_info@, clock)
    }

    open spec fn raw_defined(&self) -> bool {
        self.packet_info.timestamp.valid()
    }

    open spec fn number(&self) -> usize {
        self.line_number
    }

    proof fn display_keeps_times(
        &self,
        config: PcapConfig,
        state: PcapFileState,
        after: PcapFileState,
        other: Self,
        other_config: PcapConfig,
    ) {
    }

    fn timestamp(&self, config: &PcapConfig, state: &PcapFileState) -> (r: Timestamp) {
        time::add_milliseconds(self.packet_info.timestamp, state.time_offset_ms())
    }

    fn has_time(&self, config: &PcapConfig, state: &PcapFileState) -> (r: bool) {
        let offset: i64 = state.time_offset_ms();
        offset > i64::MIN && self.packet_info.timestamp.is_valid()
            && self.packet_info.timestamp.can_add_ms(offset)
    }

    fn can_display(&self, config: &PcapConfig, state: &PcapFileState) -> (r: bool) {
        if state.time_offset_ms() == i64::MIN {
            return false;
        }
        match &self.packet_info.transport_payload {
            Some(payload) => !self.is_decoded(state) || someip::check_sd_in_range(
                payload.as_slice(),
            ),
            None => true,
        }
    }

    fn has_raw(&self) -> (r: bool) {
        self.packet_info.timestamp.is_valid()
    }

    fn message(&self) -> (r: String) {
        self.packet_info.format_message()
    }

    fn display_message<D: Fn(TimeSpan) -> String>(
        &self,
        config: &PcapConfig,
        state: &mut PcapFileState,
        diff: &D,
    ) -> (r: String) {
        let base = filetype::prepend_offset(
            state.time_offset_ms(),
            self.packet_info.format_message(),
            diff,
        );
        self.show_packet(config, state, base)
    }

    fn raw(&self) -> (r: String) {
        self.packet_info.format_raw()
    }

    fn line_number(&self) -> (r: usize) {
        self.line_number
    }
}

/// The endpoints that service discovery announces on its own port, line by line.
pub open spec fn announced_endpoints(lines: Seq<PcapLogLine>) -> Seq<someip::EndpointView>
    decreases lines.len(),
{
    if lines.len() == 0 {
        Seq::empty()
    } else {
        let rest = announced_endpoints(lines.drop_last());
        let p = lines.last().packet_info@;
        match p.transport_payload {
            Some(d) => match someip::decoded_sd(d) {
                Some(info) => if on_sd_port(p) {
                    rest + info.endpoints
                } else {
                    rest
                },
                None => rest,
            },
            None => rest,
        }
    }
}

/// Whether service discovery on its own port can be described in a packet.
pub open spec fn announcement_describable(p: packet::PacketView) -> bool {
    p.transport_payload matches Some(d) ==> on_sd_port(p) ==> someip::sd_in_range(d)
}

/// Makes the endpoints known that service discovery announces on its own port.
pub fn pre_discover_someip_endpoints(lines: &Vec<PcapLogLine>, state: &mut PcapFileState)
    requires
        forall|i: int|
            0 <= i < lines@.len() ==> announcement_describable(
                (#[trigger] lines@[i]).packet_info@,
            ),
    ensures
        final(state).simple() == old(state).simple(),
        final(state).decodings() == old(state).decodings(),
        final(state).endpoints() == old(state).endpoints().union(
            endpoint_keys(announced_endpoints(lines@)),
        ),
{
    let mut endpoints: Vec<SomeIpEndpoint> = Vec::new();
    let mut i: usize = 0;
    assert(someip::endpoint_views(endpoints@) =~= announced_endpoints(lines@.take(0)));
    while i < lines.len()
        invariant
            i <= lines@.len(),
            forall|k: int|
                0 <= k < lines@.len() ==> announcement_describable(
                    (#[trigger] lines@[k]).packet_info@,
                ),
            someip::endpoint_views(endpoints@) == announced_endpoints(lines@.take(i as int)),
        decreases lines.len() - i,
    {
        assert(lines@.take(i + 1).drop_last() =~= lines@.take(i as int));
        assert(lines@.take(i + 1).last() == lines@[i as int]);
        let line = &lines[i];
        if line.is_on_sd_port() {
            if let Some(payload) = &line.packet_info.transport_payload {
                if let Some(info) = someip::decode_someip_sd(payload.as_slice()) {
                    let mut found = info.endpoints;
                    let ghost before = someip::endpoint_views(endpoints@);
                    let ghost more = someip::endpoint_views(found@);
                    endpoints.append(&mut found);
                    assert(someip::endpoint_views(endpoints@) =~= before + more);
                }
            }
        }
        i += 1;
    }
    assert(lines@.take(i as int) =~= lines@);
    state.add_someip_endpoints(&endpoints);
}

/// Makes the endpoints known that service discovery announces on its own port, unless
/// one of its messages cannot be described; says whether it did.
pub fn try_pre_discover_someip_endpoints(
    lines: &Vec<PcapLogLine>,
    state: &mut PcapFileState,
) -> (r: bool)
    ensures
        final(state).simple() == old(state).simple(),
        final(state).decodings() == old(state).decodings(),
        r == forall|i: int|
            0 <= i < lines@.len() ==> announcement_describable(
                (#[trigger] lines@[i]).packet_info@,
            ),
        final(state).endpoints() == if r {
            old(state).endpoints().union(endpoint_keys(announced_endpoints(lines@)))
        } else {
            old(state).endpoints()
        },
{
    let mut i: usize = 0;
    while i < lines.len()
        invariant
            i <= lines@.len(),
            forall|k: int|
                0 <= k < i ==> announcement_describable((#[trigger] lines@[k]).packet_info@),
        decreases lines.len() - i,
    {
        let line = &lines[i];
        if line.is_on_sd_port() {
            if let Some(payload) = &line.packet_info.transport_payload {
                if !someip::check_sd_in_range(payload.as_slice()) {
                    assert(!announcement_describable(lines@[i as int].packet_info@));
                    return false;
                }
            }
        }
        i += 1;
    }
    pre_discover_someip_endpoints(lines, state);
    true
}

/// A message outside service discovery is shown where the protocol, address and port of its
/// destination are those of a known endpoint, whatever its source is, and where those of its
/// source are, whatever its destination is. Where neither is known it is not shown.
pub proof fn messages_of_known_endpoints_are_shown(
    p: packet::PacketView,
    d: Seq<u8>,
    t: Seq<char>,
    decodings: Set<Seq<char>>,
    endpoints: Set<Seq<char>>,
    base: Seq<char>,
)
    requires
        p.transport_payload == Some(d),
        someip::decoded_someip(d) == Some(t),
    ensures
        ({
            let shown = shown_packet(
                p,
                PcapConfig { show_mac_addresses: false },
                decodings,
                endpoints,
                base,
            );
            let from = p.src_port matches Some(port) && endpoints.contains(
                p.protocol + ":"@ + p.src_addr + ":"@ + text::dec(port as nat),
            );
            let to = p.dst_port matches Some(port) && endpoints.contains(
                p.protocol + ":"@ + p.dst_addr + ":"@ + text::dec(port as nat),
            );
            &&& to ==> shown == base + " [SOME/IP "@ + t + "]"@
            &&& from ==> shown == base + " [SOME/IP "@ + t + "]"@
            &&& !from && !to ==> shown == base
        }),
        endpoints_after(p, decodings, endpoints) == endpoints,
{
    someip::other_bytes_are_no_messages(d);
    assert(someip::decoded_sd(d) is None);
}

/// Bytes that are no message of SOME/IP are not shown, nor is a packet without a payload.
pub proof fn other_packets_are_shown_as_they_are(
    p: packet::PacketView,
    decodings: Set<Seq<char>>,
    endpoints: Set<Seq<char>>,
    base: Seq<char>,
)
    requires
        p.transport_payload matches Some(d) ==> someip::decoded_someip(d) is None
            && someip::decoded_sd(d) is None,
    ensures
        shown_packet(
            p,
            PcapConfig { show_mac_addresses: false },
            decodings,
            endpoints,
            base,
        ) == base,
        endpoints_after(p, decodings, endpoints) == endpoints,
{
}

/// Service discovery is shown in UDP packets from or to its port 30490, and in those to a group
/// of hosts for which it was switched on; in others it is not. Each endpoint that it announces
/// is then known, and so is what was known before, and nothing else.
pub proof fn service_discovery_is_shown(
    p: packet::PacketView,
    d: Seq<u8>,
    info: someip::SdInfoView,
    decodings: Set<Seq<char>>,
    endpoints: Set<Seq<char>>,
    base: Seq<char>,
    key: Seq<char>,
)
    requires
        p.transport_payload == Some(d),
        someip::decoded_sd(d) == Some(info),
    ensures
        ({
            let looked_at = p.protocol == "UDP"@ && {
                ||| p.src_port == Some(30490u16)
                ||| p.dst_port == Some(30490u16)
                ||| p.dst_port matches Some(port) && crate::net::is_multicast_text(p.dst_addr)
                    && decodings.contains(p.dst_addr + ":"@ + text::dec(port as nat))
            };
            let shown = shown_packet(
                p,
                PcapConfig { show_mac_addresses: false },
                decodings,
                endpoints,
                base,
            );
            &&& looked_at && info.entries.len() == 0 ==> shown == base + " [SOME/IP-SD "@
                + info.message_type + "]"@
            &&& looked_at && info.entries.len() > 0 ==> shown == base + " [SOME/IP-SD "@
                + info.message_type + " "@ + text::join_spec(info.entries, ", "@) + "]"@
            &&& !looked_at ==> shown == base
            &&& endpoints_after(p, decodings, endpoints).contains(key) == (endpoints.contains(key)
                || (looked_at && exists|i: int|
                0 <= i < info.endpoints.len() && key == (#[trigger] info.endpoints[i]).protocol
                    + ":"@ + info.endpoints[i].addr + ":"@ + text::dec(
                    info.endpoints[i].port as nat,
                )))
        }),
{
    someip::other_bytes_are_no_messages(d);
    let after = endpoints_after(p, decodings, endpoints);
    assert(someip::decoded_someip(d) is None);
    if exists|i: int|
        0 <= i < info.endpoints.len() && key == (#[trigger] info.endpoints[i]).protocol + ":"@
            + info.endpoints[i].addr + ":"@ + text::dec(info.endpoints[i].port as nat) {
        let i = choose|i: int|
            0 <= i < info.endpoints.len() && key == (#[trigger] info.endpoints[i]).protocol + ":"@
                + info.endpoints[i].addr + ":"@ + text::dec(info.endpoints[i].port as nat);
        assert(key_of(info.endpoints[i]) == key);
        assert(endpoint_keys(info.endpoints).contains(key));
    }
    if endpoint_keys(info.endpoints).contains(key) {
        let i = choose|i: int| 0 <= i < info.endpoints.len() && key_of(#[trigger] info.endpoints[i]) == key;
        assert(key == info.endpoints[i].protocol + ":"@ + info.endpoints[i].addr + ":"@ + text::dec(
            info.endpoints[i].port as nat,
        ));
    }
}

/// Once a packet of service discovery that announces an endpoint was shown, messages that go to
/// that endpoint or come from it are shown.
pub proof fn announced_endpoints_are_decoded(
    offer: packet::PacketView,
    info: someip::SdInfoView,
    e: someip::EndpointView,
    p: packet::PacketView,
    d: Seq<u8>,
    t: Seq<char>,
    decodings: Set<Seq<char>>,
    endpoints: Set<Seq<char>>,
    base: Seq<char>,
)
    requires
        offer.protocol == "UDP"@,
        offer.src_port == Some(30490u16) || offer.dst_port == Some(30490u16),
        offer.transport_payload is Some,
        someip::decoded_sd(offer.transport_payload->0) == Some(info),
        info.endpoints.contains(e),
        p.transport_payload == Some(d),
        someip::decoded_someip(d) == Some(t),
        p.protocol == e.protocol,
        (p.dst_addr == e.addr && p.dst_port == Some(e.port)) || (p.src_addr == e.addr && p.src_port
            == Some(e.port)),
    ensures
        shown_packet(
            p,
            PcapConfig { show_mac_addresses: false },
            decodings,
            endpoints_after(offer, decodings, endpoints),
            base,
        ) == base + " [SOME/IP "@ + t + "]"@,
{
    let i = choose|i: int| 0 <= i < info.endpoints.len() && info.endpoints[i] == e;
    let key = e.protocol + ":"@ + e.addr + ":"@ + text::dec(e.port as nat);
    assert(key == info.endpoints[i].protocol + ":"@ + info.endpoints[i].addr + ":"@ + text::dec(
        info.endpoints[i].port as nat,
    ));
    service_discovery_is_shown(
        offer,
        offer.transport_payload->0,
        info,
        decodings,
        endpoints,
        base,
        key,
    );
    messages_of_known_endpoints_are_shown(
        p,
        d,
        t,
        decodings,
        endpoints_after(offer, decodings, endpoints),
        base,
    );
}

/// The Ethernet addresses of a packet stand before its line where they are wanted and known:
/// that of the source first. What follows them is the line that is shown without them.
pub proof fn ethernet_addresses_stand_first(
    p: packet::PacketView,
    decodings: Set<Seq<char>>,
    endpoints: Set<Seq<char>>,
    base: Seq<char>,
)
    ensures
        p.src_mac is Some && p.dst_mac is Some ==> shown_packet(
            p,
            PcapConfig { show_mac_addresses: true },
            decodings,
            endpoints,
            base,
        ) == p.src_mac->0 + " \u{2192} "@ + p.dst_mac->0 + " | "@ + shown_packet(
            p,
            PcapConfig { show_mac_addresses: false },
            decodings,
            endpoints,
            base,
        ),
        p.src_mac is None || p.dst_mac is None ==> shown_packet(
            p,
            PcapConfig { show_mac_addresses: true },
            decodings,
            endpoints,
            base,
        ) == shown_packet(
            p,
            PcapConfig { show_mac_addresses: false },
            decodings,
            endpoints,
            base,
        ),
{
    if p.src_mac is Some && p.dst_mac is Some {
        assert(shown_packet(p, PcapConfig { show_mac_addresses: true }, decodings, endpoints, base)
            =~= p.src_mac->0 + " \u{2192} "@ + p.dst_mac->0 + " | "@ + shown_packet(
            p,
            PcapConfig { show_mac_addresses: false },
            decodings,
            endpoints,
            base,
        ));
    }
}

/// Before a capture is shown, every endpoint is known that any of its lines announces on the
/// port of service discovery, and no line announces others.
pub proof fn endpoints_of_all_lines_are_announced(
    lines: Seq<PcapLogLine>,
    e: someip::EndpointView,
)
    ensures
        announced_endpoints(lines).contains(e) == exists|i: int|
            0 <= i < lines.len() && {
                let p = (#[trigger] lines[i]).packet_info@;
                &&& p.protocol == "UDP"@
                &&& p.src_port == Some(30490u16) || p.dst_port == Some(30490u16)
                &&& p.transport_payload matches Some(d)
                &&& someip::decoded_sd(d) matches Some(info)
                &&& info.endpoints.contains(e)
            },
    decreases lines.len(),
{
    if lines.len() > 0 {
        let front = lines.drop_last();
        endpoints_of_all_lines_are_announced(front, e);
        let all = announced_endpoints(lines);
        let before = announced_endpoints(front);
        let n = lines.len() - 1;
        assert(forall|i: int| 0 <= i < n ==> front[i] == lines[i]);
        let p = lines[n].packet_info@;
        if all.contains(e) {
            let k = choose|k: int| 0 <= k < all.len() && all[k] == e;
            if k < before.len() {
                assert(before[k] == e);
            } else {
                let info = someip::decoded_sd(p.transport_payload->0)->0;
                assert(info.endpoints[k - before.len()] == e);
            }
        }
        if before.contains(e) {
            let k = choose|k: int| 0 <= k < before.len() && before[k] == e;
            assert(all[k] == e);
        }
        if on_sd_port(p) && p.transport_payload is Some {
            if let Some(info) = someip::decoded_sd(p.transport_payload->0) {
                if info.endpoints.contains(e) {
                    let k = choose|k: int| 0 <= k < info.endpoints.len() && info.endpoints[k] == e;
                    assert(all[before.len() + k] == e);
                }
            }
        }
    }
}

} // verus!
