//! Bluetooth logs: captures of the packets between a host and its controller.

use crate::filetype;
use crate::filetype::{LineType, SimpleFileState};
use crate::text;
use crate::time;
use crate::time::{TimeSpan, Timestamp};
use vstd::prelude::*;

verus! {

/// Microseconds from the year 0 to 1970, as these logs count them.
pub const UNIX_EPOCH_MICROSECONDS: i64 = 0x00dc_ddb3_0f2f_8000;

/// A packet of a Bluetooth log.
#[derive(Debug)]
pub struct BtPacket {
    /// Microseconds since the year 0.
    pub timestamp_microseconds: i64,
    /// 0 where the host sent it, 1 where the host received it.
    pub direction: u8,
    /// 0 for data, 1 for a command or an event.
    pub command: u8,
    pub original_length: u32,
    pub data: Vec<u8>,
}

/// A packet of a Bluetooth log, with its bytes as a sequence.
pub struct BtPacketView {
    pub timestamp_microseconds: i64,
    pub direction: u8,
    pub command: u8,
    pub original_length: u32,
    pub data: Seq<u8>,
}

impl View for BtPacket {
    type V = BtPacketView;

    open spec fn view(&self) -> BtPacketView {
        BtPacketView {
            timestamp_microseconds: self.timestamp_microseconds,
            direction: self.direction,
            command: self.command,
            original_length: self.original_length,
            data: self.data@,
        }
    }
}

/// The views of a list of packets.
pub open spec fn packet_views(v: Seq<BtPacket>) -> Seq<BtPacketView> {
    v.map_values(|p: BtPacket| p@)
}

/// The packets that the `btsnoop` crate finds in a file, or the error with which it refuses
/// the file.
pub uninterp spec fn btsnoop_packets(d: Seq<u8>) -> Result<Seq<BtPacketView>, Seq<char>>;

/// Reads a file with `btsnoop::parse_btsnoop_file`. The packets, or the error, are a
/// function of the bytes.
#[verifier::external_body]
fn parse_btsnoop_file(d: &[u8]) -> (r: Result<Vec<BtPacket>, String>)
    ensures
        match r {
            Ok(v) => btsnoop_packets(d@) == Ok::<_, Seq<char>>(packet_views(v@)),
            Err(e) => btsnoop_packets(d@) == Err::<Seq<BtPacketView>, _>(e@),
        },
{
    match btsnoop::parse_btsnoop_file(d) {
        Ok(file) => Ok(file.packets.into_iter().map(|p| BtPacket {
            timestamp_microseconds: p.header.timestamp_microseconds,
            direction: p.header.packet_flags.direction as u8,
            command: p.header.packet_flags.command as u8,
            original_length: p.header.original_length,
            data: p.packet_data.to_vec(),
        }).collect()),
        Err(e) => Err(format!("{e:?}")),
    }
}

/// Microseconds since 1970.
pub open spec fn unix_microseconds(t: i64) -> int {
    t - UNIX_EPOCH_MICROSECONDS
}

/// Whether a packet was taken in 1970 or later, at a time that the calendar has.
pub open spec fn is_dated(p: BtPacketView) -> bool {
    0 <= unix_microseconds(p.timestamp_microseconds) < (time::LAST_SECOND + 1) * 1_000_000
}

/// The time of a packet.
pub open spec fn packet_time(p: BtPacketView) -> Timestamp {
    Timestamp { secs: 0, nanos: 0 }.plus_us(unix_microseconds(p.timestamp_microseconds))
}

/// Decides whether a packet was taken in 1970 or later, at a time that the calendar has.
pub fn has_date(p: &BtPacket) -> (r: bool)
    ensures
        r == is_dated(p@),
{
    p.timestamp_microseconds >= UNIX_EPOCH_MICROSECONDS && p.timestamp_microseconds
        - UNIX_EPOCH_MICROSECONDS < (time::LAST_SECOND + 1) * 1_000_000
}

/// The time of a packet.
pub fn packet_timestamp(p: &BtPacket) -> (r: Timestamp)
    requires
        is_dated(p@),
    ensures
        r == packet_time(p@),
        r.valid(),
        r.total() == unix_microseconds(p@.timestamp_microseconds) * 1000,
{
    let us: i64 = p.timestamp_microseconds - UNIX_EPOCH_MICROSECONDS;
    time::add_microseconds(Timestamp { secs: 0, nanos: 0 }, us)
}

/// What a packet between host and controller says.
#[derive(Debug)]
pub struct HciPacketInfo {
    pub timestamp: Timestamp,
    /// The packet in one line.
    pub message: String,
    /// The packet in full detail.
    pub raw: String,
}

impl HciPacketInfo {
    /// Writes the packet in one line.
    pub fn format_message(&self) -> (r: String)
        ensures
            r@ == self.message@,
    {
        self.message.clone()
    }

    /// Writes the packet in full detail.
    pub fn format_raw(&self) -> (r: String)
        ensures
            r@ == self.raw@,
    {
        self.raw.clone()
    }
}

impl Clone for HciPacketInfo {
    fn clone(&self) -> (r: Self)
        ensures
            r == *self,
    {
        HciPacketInfo {
            timestamp: self.timestamp,
            message: self.message.clone(),
            raw: self.raw.clone(),
        }
    }
}

/// A line of a Bluetooth log: one packet.
#[derive(Debug)]
pub struct BtsnoopLogLine {
    pub hci_info: HciPacketInfo,
    /// The number of the packet, from 1.
    pub line_number: usize,
}

impl Clone for BtsnoopLogLine {
    fn clone(&self) -> (r: Self)
        ensures
            r == *self,
    {
        BtsnoopLogLine { hci_info: self.hci_info.clone(), line_number: self.line_number }
    }
}

/// What is kept for one Bluetooth log.
pub type BtsnoopFileState = SimpleFileState;

impl BtsnoopLogLine {
    pub fn new(hci_info: HciPacketInfo, line_number: usize) -> (r: Self)
        ensures
            r == (BtsnoopLogLine { hci_info, line_number }),
    {
        BtsnoopLogLine { hci_info, line_number }
    }

    /// The state of a log of which only a time offset is saved.
    pub fn file_state_from_v2(time_offset_ms: i64) -> (r: BtsnoopFileState)
        ensures
            r.time_offset_ms == time_offset_ms,
            r.calibration is None,
    {
        let mut s = SimpleFileState::default();
        s.set_time_offset_ms(time_offset_ms);
        s
    }

    /// Opens the calibration window for the line.
    pub fn start_calibration(&self, state: &mut BtsnoopFileState)
        requires
            filetype::offset_fits(self.hci_info.timestamp, old(state).time_offset_ms),
        ensures
            final(state).time_offset_ms == old(state).time_offset_ms,
            final(state).calibration == Some(
                (
                    self.hci_info.timestamp,
                    filetype::CalibrationWindow {
                        target_time: self.hci_info.timestamp.plus_ms(
                            old(state).time_offset_ms as int,
                        ),
                        asks_for_all_apps: false,
                        current_time: Some(
                            self.hci_info.timestamp.plus_ms(old(state).time_offset_ms as int),
                        ),
                        raw_time: self.hci_info.timestamp,
                    },
                ),
            ),
    {
        state.start_calibration(self.hci_info.timestamp);
    }
}

impl LineType for BtsnoopLogLine {
    type Config = ();

    type FileState = BtsnoopFileState;

    open spec fn time(&self, config: (), state: BtsnoopFileState) -> Timestamp {
        self.hci_info.timestamp.plus_ms(state.time_offset_ms as int)
    }

    open spec fn time_defined(&self, config: (), state: BtsnoopFileState) -> bool {
        filetype::offset_fits(self.hci_info.timestamp, state.time_offset_ms)
    }

    open spec fn message_text(&self) -> Seq<char> {
        self.hci_info.message@
    }

    open spec fn display_defined(&self, config: (), state: BtsnoopFileState) -> bool {
        state.time_offset_ms > i64::MIN
    }

    open spec fn displays(
        &self,
        config: (),
        state: BtsnoopFileState,
        diff: filetype::SpanTexts,
        shown: Seq<char>,
    ) -> bool {
        filetype::with_offset(state.time_offset_ms, self.hci_info.message@, diff, shown)
    }

    open spec fn state_after_display(
        &self,
        config: (),
        state: BtsnoopFileState,
        after: BtsnoopFileState,
    ) -> bool {
        after == state
    }

    open spec fn is_raw(&self, raw: Seq<char>) -> bool {
        raw == self.hci_info.raw@
    }

    open spec fn raw_defined(&self) -> bool {
        true
    }

    open spec fn number(&self) -> usize {
        self.line_number
    }

    proof fn display_keeps_times(
        &self,
        config: (),
        state: BtsnoopFileState,
        after: BtsnoopFileState,
        other: Self,
        other_config: (),
    ) {
    }

    fn timestamp(&self, config: &(), state: &BtsnoopFileState) -> (r: Timestamp) {
        time::add_milliseconds(self.hci_info.timestamp, state.time_offset_ms())
    }

    fn has_time(&self, config: &(), state: &BtsnoopFileState) -> (r: bool) {
        let offset: i64 = state.time_offset_ms();
        offset > i64::MIN && self.hci_info.timestamp.is_valid()
            && self.hci_info.timestamp.can_add_ms(offset)
    }

    fn can_display(&self, config: &(), state: &BtsnoopFileState) -> (r: bool) {
        state.time_offset_ms() > i64::MIN
    }

    fn has_raw(&self) -> (r: bool) {
        true
    }

    fn message(&self) -> (r: String) {
        self.hci_info.format_message()
    }

    fn display_message<D: Fn(TimeSpan) -> String>(
        &self,
        config: &(),
        state: &mut BtsnoopFileState,
        diff: &D,
    ) -> (r: String) {
        filetype::prepend_offset(state.time_offset_ms(), self.hci_info.format_message(), diff)
    }

    fn raw(&self) -> (r: String) {
        self.hci_info.format_raw()
    }

    fn line_number(&self) -> (r: usize) {
        self.line_number
    }
}

/// The lines of packets of which some say nothing: each line has the number of its
/// packet.
pub open spec fn numbered(infos: Seq<Option<HciPacketInfo>>) -> Seq<BtsnoopLogLine>
    decreases infos.len(),
{
    if infos.len() == 0 {
        Seq::empty()
    } else {
        match infos.last() {
            Some(hci_info) => numbered(infos.drop_last()).push(
                BtsnoopLogLine { hci_info, line_number: infos.len() as usize },
            ),
            None => numbered(infos.drop_last()),
        }
    }
}

/// Whether `infos` is what a decoder of packets can say of each of them.
pub open spec fn are_decoded<F: Fn(&BtPacket, Timestamp) -> Option<HciPacketInfo>>(
    packets: Seq<BtPacket>,
    decode: F,
    infos: Seq<Option<HciPacketInfo>>,
) -> bool {
    &&& infos.len() == packets.len()
    &&& forall|i: int|
        0 <= i < packets.len() ==> call_ensures(
            decode,
            (&#[trigger] packets[i], packet_time(packets[i]@)),
            infos[i],
        )
}

/// Makes lines of packets, by what a decoder says of each of them.
pub fn convert_packets<F: Fn(&BtPacket, Timestamp) -> Option<HciPacketInfo>>(
    packets: &Vec<BtPacket>,
    decode: &F,
) -> (r: Vec<BtsnoopLogLine>)
    requires
        forall|p: &BtPacket, t: Timestamp| #[trigger] call_requires(*decode, (p, t)),
        forall|i: int| 0 <= i < packets@.len() ==> is_dated((#[trigger] packets@[i])@),
    ensures
        exists|infos: Seq<Option<HciPacketInfo>>|
            #[trigger] are_decoded(packets@, *decode, infos) && r@ == numbered(infos),
{
    let mut lines: Vec<BtsnoopLogLine> = Vec::new();
    let ghost mut infos: Seq<Option<HciPacketInfo>> = Seq::empty();
    let mut i: usize = 0;
    while i < packets.len()
        invariant
            i <= packets@.len(),
            forall|p: &BtPacket, t: Timestamp| #[trigger] call_requires(*decode, (p, t)),
            forall|k: int| 0 <= k < packets@.len() ==> is_dated((#[trigger] packets@[k])@),
            infos.len() == i,
            forall|k: int|
                0 <= k < i ==> call_ensures(
                    *decode,
                    (&#[trigger] packets@[k], packet_time(packets@[k]@)),
                    infos[k],
                ),
            lines@ == numbered(infos),
        decreases packets.len() - i,
    {
        let timestamp = packet_timestamp(&packets[i]);
        let info = decode(&packets[i], timestamp);
        proof {
            let before = infos;
            infos = infos.push(info);
            assert(infos.drop_last() =~= before);
            assert(forall|k: int| 0 <= k < i ==> infos[k] == before[k]);
        }
        if let Some(hci_info) = info {
            lines.push(BtsnoopLogLine::new(hci_info, i + 1));
        }
        i += 1;
    }
    assert(are_decoded(packets@, *decode, infos));
    lines
}

/// Whether all packets of a file are dated.
pub open spec fn all_dated(d: Seq<u8>) -> bool {
    btsnoop_packets(d) matches Ok(v) ==> forall|i: int|
        0 <= i < v.len() ==> is_dated(#[trigger] v[i])
}

/// Whether `lines` can be read from a file with a decoder of packets.
pub open spec fn is_bluetooth_reading<F: Fn(&BtPacket, Timestamp) -> Option<HciPacketInfo>>(
    d: Seq<u8>,
    decode: F,
    lines: Seq<BtsnoopLogLine>,
) -> bool {
    exists|packets: Seq<BtPacket>, infos: Seq<Option<HciPacketInfo>>|
        btsnoop_packets(d) == Ok::<_, Seq<char>>(packet_views(packets)) && #[trigger] are_decoded(
            packets,
            decode,
            infos,
        ) && lines == numbered(infos)
}

/// Reads a Bluetooth log with a decoder of packets. The error is the text of why the
/// file is refused.
pub fn parse_btsnoop_to_lines<F: Fn(&BtPacket, Timestamp) -> Option<HciPacketInfo>>(
    data: &[u8],
    decode: &F,
) -> (r: Result<Vec<BtsnoopLogLine>, String>)
    requires
        forall|p: &BtPacket, t: Timestamp| #[trigger] call_requires(*decode, (p, t)),
        all_dated(data@),
    ensures
        match r {
            Ok(lines) => is_bluetooth_reading(data@, *decode, lines@),
            Err(e) => btsnoop_packets(data@) matches Err(why) && e@
                == "Failed to parse btsnoop file: "@ + why,
        },
{
    match parse_btsnoop_file(data) {
        Ok(packets) => {
            proof {
                let v = packet_views(packets@);
                assert forall|i: int| 0 <= i < packets@.len() implies is_dated(
                    (#[trigger] packets@[i])@,
                ) by {
                    assert(v[i] == packets@[i]@);
                    assert(is_dated((btsnoop_packets(data@)->Ok_0)[i]));
                }
            }
            Ok(convert_packets(&packets, decode))
        },
        Err(why) => {
            let mut e = String::from_str("Failed to parse btsnoop file: ");
            e.append(why.as_str());
            Err(e)
        },
    }
}

/// Reads a Bluetooth log with a decoder of packets; gives nothing where a packet is not
/// dated.
pub fn try_parse_btsnoop_to_lines<F: Fn(&BtPacket, Timestamp) -> Option<HciPacketInfo>>(
    data: &[u8],
    decode: &F,
) -> (r: Option<Result<Vec<BtsnoopLogLine>, String>>)
    requires
        forall|p: &BtPacket, t: Timestamp| #[trigger] call_requires(*decode, (p, t)),
    ensures
        match r {
            Some(Ok(lines)) => all_dated(data@) && is_bluetooth_reading(data@, *decode, lines@),
            Some(Err(e)) => btsnoop_packets(data@) matches Err(why) && e@
                == "Failed to parse btsnoop file: "@ + why,
            None => !all_dated(data@),
        },
{
    if let Ok(packets) = parse_btsnoop_file(data) {
        let ghost v = packet_views(packets@);
        let mut i: usize = 0;
        while i < packets.len()
            invariant
                i <= packets@.len(),
                v == packet_views(packets@),
                btsnoop_packets(data@) == Ok::<_, Seq<char>>(v),
                forall|k: int| 0 <= k < i ==> is_dated(#[trigger] v[k]),
            decreases packets.len() - i,
        {
            assert(v[i as int] == packets@[i as int]@);
            if !has_date(&packets[i]) {
                assert(!is_dated((btsnoop_packets(data@)->Ok_0)[i as int]));
                return None;
            }
            i += 1;
        }
        assert(forall|k: int| 0 <= k < v.len() ==> is_dated(#[trigger] v[k]));
    }
    Some(parse_btsnoop_to_lines(data, decode))
}

/// A Bluetooth log that was read, handed out in pieces.
pub struct BtsnoopFileType {
    lines: Vec<BtsnoopLogLine>,
    cursor: usize,
    file_size: u64,
}

impl BtsnoopFileType {
    /// All lines of the log.
    pub closed spec fn lines(&self) -> Seq<BtsnoopLogLine> {
        self.lines@
    }

    /// How many lines were handed out.
    pub closed spec fn position(&self) -> nat {
        self.cursor as nat
    }

    /// The size of the file in bytes.
    pub closed spec fn size(&self) -> u64 {
        self.file_size
    }

    #[verifier::type_invariant]
    spec fn wf(&self) -> bool {
        self.cursor <= self.lines@.len()
    }

    /// Hands out lines that were read, none of them yet.
    pub fn open(lines: Vec<BtsnoopLogLine>, file_size: u64) -> (r: Self)
        ensures
            r.lines() == lines@,
            r.position() == 0,
            r.size() == file_size,
    {
        BtsnoopFileType { lines, cursor: 0, file_size }
    }

    /// Hands out the next lines, as many as are asked for and there.
    pub fn read(&mut self, lines_to_read: usize) -> (r: Vec<BtsnoopLogLine>)
        requires
            old(self).position() + lines_to_read <= usize::MAX,
        ensures
            final(self).lines() == old(self).lines(),
            final(self).size() == old(self).size(),
            old(self).position() <= final(self).position(),
            final(self).position() == filetype::next_position(
                old(self).position() as int,
                lines_to_read,
                old(self).lines().len() as int,
            ),
            r@ == old(self).lines().subrange(
                old(self).position() as int,
                final(self).position() as int,
            ),
    {
        proof {
            use_type_invariant(&*self);
        }
        let wanted: usize = self.cursor + lines_to_read;
        let end: usize = if wanted < self.lines.len() {
            wanted
        } else {
            self.lines.len()
        };
        let mut batch: Vec<BtsnoopLogLine> = Vec::new();
        let mut i: usize = self.cursor;
        while i < end
            invariant
                self.cursor <= i <= end <= self.lines@.len(),
                batch@ == self.lines@.subrange(self.cursor as int, i as int),
            decreases end - i,
        {
            batch.push(self.lines[i].clone());
            assert(batch@ =~= self.lines@.subrange(self.cursor as int, i + 1));
            i += 1;
        }
        self.cursor = end;
        batch
    }

    /// The number of lines that were handed out, and of all lines.
    pub fn progress(&self) -> (r: (usize, usize))
        ensures
            r.0 == self.position(),
            r.1 == self.lines().len(),
    {
        (self.cursor, self.lines.len())
    }

    /// The size of the file in bytes.
    pub fn file_size(&self) -> (r: u64)
        ensures
            r == self.size(),
    {
        self.file_size
    }
}

/// The times of packets count microseconds from the year 0: a packet that was taken in 1970
/// or later has the time that lies as many microseconds after 1970, and a packet has a date
/// just where that time is not before 1970 and the calendar has its second.
pub proof fn packets_have_the_times_of_their_headers(p: BtPacketView)
    ensures
        is_dated(p) == (0 <= p.timestamp_microseconds - 62168256000000000
            && p.timestamp_microseconds - 62168256000000000 < 8210266876800 * 1_000_000),
        is_dated(p) ==> {
            &&& packet_time(p).total() == (p.timestamp_microseconds - 62168256000000000) * 1000
            &&& packet_time(p).nanos < 1_000_000_000
        },
{
    if is_dated(p) {
        let n = p.timestamp_microseconds - 62168256000000000;
        let zero = Timestamp { secs: 0, nanos: 0 };
        assert(n == unix_microseconds(p.timestamp_microseconds));
        time::moving_adds_the_length(zero, n);
    }
}

/// Every packet of which something is known is a line, under the number that the packet
/// has in the file, and every line is one of a packet; lines stand in the order of their
/// packets.
pub proof fn packets_become_lines(infos: Seq<Option<HciPacketInfo>>)
    requires
        infos.len() <= usize::MAX,
    ensures
        forall|i: int|
            0 <= i < infos.len() ==> ((#[trigger] infos[i]) matches Some(h) ==> numbered(
                infos,
            ).contains(BtsnoopLogLine { hci_info: h, line_number: (i + 1) as usize })),
        forall|k: int|
            0 <= k < numbered(infos).len() ==> {
                let n = (#[trigger] numbered(infos)[k]).line_number;
                1 <= n <= infos.len() && infos[n - 1] == Some(numbered(infos)[k].hci_info)
            },
        forall|j: int, k: int|
            0 <= j < k < numbered(infos).len() ==> (#[trigger] numbered(infos)[j]).line_number < (
            #[trigger] numbered(infos)[k]).line_number,
    decreases infos.len(),
{
    if infos.len() > 0 {
        let front = infos.drop_last();
        packets_become_lines(front);
        let before = numbered(front);
        let now = numbered(infos);
        assert forall|i: int| 0 <= i < infos.len() implies ((#[trigger] infos[i]) matches Some(h)
            ==> now.contains(BtsnoopLogLine { hci_info: h, line_number: (i + 1) as usize })) by {
            if let Some(h) = infos[i] {
                let line = BtsnoopLogLine { hci_info: h, line_number: (i + 1) as usize };
                if i < front.len() {
                    assert(front[i] == infos[i]);
                    let k = choose|k: int| 0 <= k < before.len() && before[k] == line;
                    assert(now[k] == before[k]);
                } else {
                    assert(now[now.len() - 1] == line);
                }
            }
        }
        assert forall|k: int| 0 <= k < now.len() implies {
            let n = (#[trigger] now[k]).line_number;
            1 <= n <= infos.len() && infos[n - 1] == Some(now[k].hci_info)
        } by {
            if k < before.len() {
                assert(now[k] == before[k]);
                assert(front[before[k].line_number - 1] == infos[before[k].line_number - 1]);
            }
        }
        assert forall|j: int, k: int| 0 <= j < k < now.len() implies (
        #[trigger] now[j]).line_number < (#[trigger] now[k]).line_number by {
            assert(now[j] == before[j]);
            if k < before.len() {
                assert(now[k] == before[k]);
            }
        }
    }
}

/// A line has the time of its packet, moved by the offset of the log, shows the message of
/// its packet, which stands behind the offset where there is one, and has its number.
pub proof fn lines_go_by_their_packets(
    line: BtsnoopLogLine,
    state: BtsnoopFileState,
    diff: filetype::SpanTexts,
    shown: Seq<char>,
)
    requires
        !line.hci_info.timestamp.is_leap(),
        line.hci_info.timestamp.valid(),
        line.time_defined((), state),
        line.displays((), state, diff, shown),
    ensures
        line.time((), state).total() == line.hci_info.timestamp.total() + state.time_offset_ms
            * 1_000_000,
        line.message_text() == line.hci_info.message@,
        forall|raw: Seq<char>| #[trigger] line.is_raw(raw) == (raw == line.hci_info.raw@),
        line.number() == line.line_number,
        state.time_offset_ms == 0 ==> shown == line.hci_info.message@,
        state.time_offset_ms != 0 ==> exists|span: TimeSpan, t: Seq<char>|
            span.total() == state.time_offset_ms * 1_000_000 && #[trigger] diff(span, t) && shown
                == "["@ + t + "] "@ + line.hci_info.message@,
{
    time::moving_adds_the_length(line.hci_info.timestamp, state.time_offset_ms as int);
}

/// Every line that is read from a file is one of a packet that the file holds, which was
/// decoded with the time that it was taken.
pub proof fn lines_are_those_of_the_packets_in_the_file<
    F: Fn(&BtPacket, Timestamp) -> Option<HciPacketInfo>,
>(d: Seq<u8>, decode: F, lines: Seq<BtsnoopLogLine>)
    requires
        is_bluetooth_reading(d, decode, lines),
        btsnoop_packets(d) matches Ok(v) ==> v.len() <= usize::MAX,
    ensures
        btsnoop_packets(d) is Ok,
        forall|k: int|
            0 <= k < lines.len() ==> {
                let n = (#[trigger] lines[k]).line_number;
                &&& 1 <= n <= (btsnoop_packets(d)->Ok_0).len()
                &&& exists|p: &BtPacket|
                    {
                        &&& p@ == (btsnoop_packets(d)->Ok_0)[n - 1]
                        &&& #[trigger] call_ensures(
                            decode,
                            (p, packet_time(p@)),
                            Some(lines[k].hci_info),
                        )
                    }
            },
{
    let (packets, infos) = choose|packets: Seq<BtPacket>, infos: Seq<Option<HciPacketInfo>>|
        btsnoop_packets(d) == Ok::<_, Seq<char>>(packet_views(packets)) && #[trigger] are_decoded(
            packets,
            decode,
            infos,
        ) && lines == numbered(infos);
    assert(packet_views(packets).len() == packets.len());
    packets_become_lines(infos);
    assert forall|k: int| 0 <= k < lines.len() implies {
        let n = (#[trigger] lines[k]).line_number;
        &&& 1 <= n <= (btsnoop_packets(d)->Ok_0).len()
        &&& exists|p: &BtPacket|
            {
                &&& p@ == (btsnoop_packets(d)->Ok_0)[n - 1]
                &&& #[trigger] call_ensures(decode, (p, packet_time(p@)), Some(lines[k].hci_info))
            }
    } by {
        let n = lines[k].line_number;
        let p = packets[n - 1];
        assert(packet_views(packets)[n - 1] == p@);
        assert(call_ensures(decode, (&p, packet_time(p@)), infos[n - 1]));
    }
}

} // verus!
